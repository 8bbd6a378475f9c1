//! The query strings and bodies of the HTTP API that carry a rule of their
//! own: the defaults taken when a parameter is left out.
use vstd::prelude::*;
use crate::text::{chars_of, string_of};

verus! {

/// `?notebook=&tag=` of a note listing.
pub struct NoteQuery {
    pub notebook: Option<String>,
    pub tag: Option<String>,
}

/// `?notebook=` naming the notebook of one note.
pub struct NoteIdQuery {
    pub notebook: Option<String>,
}

/// `?q=` of a note search.
pub struct NoteSearchQuery {
    pub q: Option<String>,
}

/// `?days=` of a daily log listing.
pub struct DailyLogQuery {
    pub days: Option<i64>,
}

/// `?limit=` of a listing of the application log.
pub struct LogQuery {
    pub limit: Option<u32>,
}

/// The body of a request to create a project.
pub struct CreateProjectRequest {
    pub name: String,
}

/// State shared by the HTTP handlers; it holds nothing yet.
#[derive(Clone)]
pub struct ApiState {}

/// The body of a request that marks a todo done or not done.
pub struct SetDoneBody {
    pub done: bool,
}

/// The body of a request that adds a list group.
pub struct AddGroupBody {
    pub name: String,
}

/// The body of a request that adds a list to a group.
pub struct AddCategoryBody {
    pub name: String,
}

/// The body of a request that adds an item to a list.
pub struct AddItemBody {
    pub name: String,
    pub quantity: Option<String>,
}

/// The body of a request that checks or unchecks a list item.
pub struct CheckItemBody {
    pub checked: bool,
}

/// The body of a request that renames a list.
pub struct RenameCategoryBody {
    pub name: String,
}

/// The body of a request that turns a list's checkboxes on or off.
pub struct SetCheckboxesBody {
    pub has_checkboxes: bool,
}

/// The body of a request that turns a list's quick-add pane on or off.
pub struct SetQuickAddBody {
    pub has_quick_add: bool,
}

/// The body of a request that puts a list's items in the order of `ids`.
pub struct ReorderItemsBody {
    pub ids: Vec<i64>,
}

/// The body of a request that saves a common item of a list.
pub struct AddCommonItemBody {
    pub name: String,
    pub quantity: Option<String>,
}

impl NoteIdQuery {
    /// The notebook named, `home` when none is.
    pub fn notebook_or_home(&self) -> (r: String)
        ensures
            r@ == match self.notebook {
                Some(n) => n@,
                None => "home"@,
            },
    {
        match &self.notebook {
            Some(n) => string_of(&chars_of(n.as_str())),
            None => string_of(&chars_of("home")),
        }
    }
}

impl NoteSearchQuery {
    /// The search text, empty when none is given.
    pub fn query_text(&self) -> (r: String)
        ensures
            r@ == match self.q {
                Some(q) => q@,
                None => Seq::<char>::empty(),
            },
    {
        match &self.q {
            Some(q) => string_of(&chars_of(q.as_str())),
            None => String::new(),
        }
    }
}

impl DailyLogQuery {
    /// The days of the daily log listed: as asked, 7 by default.
    pub fn log_days(&self) -> (r: i64)
        ensures
            r == match self.days {
                Some(d) => d,
                None => 7,
            },
    {
        match self.days {
            Some(d) => d,
            None => 7,
        }
    }

    /// The days of a project's log listed: as asked, 30 by default.
    pub fn project_log_days(&self) -> (r: i64)
        ensures
            r == match self.days {
                Some(d) => d,
                None => 30,
            },
    {
        match self.days {
            Some(d) => d,
            None => 30,
        }
    }
}

impl LogQuery {
    /// The number of log entries listed: as asked, 20 by default.
    pub fn limit_or_default(&self) -> (r: u32)
        ensures
            r == match self.limit {
                Some(l) => l,
                None => 20,
            },
    {
        match self.limit {
            Some(l) => l,
            None => 20,
        }
    }
}

} // verus!
