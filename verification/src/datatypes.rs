//! The task-server data the receipt printer works with: login and listing
//! requests, users, projects' buckets and subscriptions, and tasks with
//! their labels and reminders.
use vstd::prelude::*;
use crate::text::{chars_of, eq_str};

verus! {

pub struct RequestLogin {
    pub long_token: bool,
    pub password: String,
    pub totp_passcode: String,
    pub username: String,
}

pub struct RequestAllProjects {
    pub page: u8,
    pub per_page: u8,
    pub s: String,
    pub is_archived: bool,
}

pub struct Auth {
    pub token: String,
}

pub struct User {
    pub id: i32,
    pub name: String,
    pub username: String,
}

pub struct Bucket {
    pub filter: String,
    pub title: String,
}

pub struct Subscription {
    pub created: String,
    pub entity: u32,
    pub entity_id: i32,
    pub id: i32,
}

pub struct RequestAllTasks {
    pub page: u8,
    pub per_page: u8,
    pub s: String,
    pub done: bool,
}

#[derive(Debug, Clone)]
pub struct Label {
    pub title: String,
}

#[derive(Debug, Clone)]
pub struct ReminderConfig {
    pub relative_period: u8,
    pub relative_to: String,
    pub reminder: String,
}

#[derive(Debug, Clone)]
pub struct Task {
    pub id: i32,
    pub title: String,
    pub description: String,
    pub updated: String,
    pub done: bool,
    pub labels: Option<Vec<Label>>,
    pub project_id: i32,
    pub due_date: String,
    pub reminders: Option<Vec<ReminderConfig>>,
}

/// The error of the `html2text` crate.
#[verifier::external_type_specification]
#[verifier::external_body]
pub struct ExHtmlError(html2text::Error);

/// The plain text `html2text::from_read` renders from an HTML text at a
/// width, or `None` when it reports an error.
pub uninterp spec fn html_text(html: Seq<char>, width: usize) -> Option<Seq<char>>;

/// `html2text::from_read`: the HTML `html` rendered as plain text wrapped
/// to `width` columns. The contract ties the result to the arguments
/// through the name `html_text`; what the text is, the crate decides.
#[verifier::external_body]
fn render_html(html: &str, width: usize) -> (r: Result<String, html2text::Error>)
    ensures
        match r {
            Ok(s) => html_text(html@, width) == Some(s@),
            Err(_) => html_text(html@, width) is None,
        },
{
    html2text::from_read(html.as_bytes(), width)
}

/// The labels that mark a task as recurring.
pub open spec fn is_recurring_label(t: Seq<char>) -> bool {
    ||| t == "Daily"@
    ||| t == "Weekly"@
    ||| t == "Monthly"@
    ||| t == "Bi-Weekly"@
    ||| t == "Quarterly"@
    ||| t == "Yearly/Beyond"@
}

/// Whether one of the labels marks a task as recurring.
pub open spec fn has_recurring_label(labels: Option<Vec<Label>>) -> bool {
    match labels {
        Some(ls) => exists|i: int| 0 <= i < ls@.len() && is_recurring_label(#[trigger] ls@[i].title@),
        None => false,
    }
}

/// Whether a label title is one of the recurring labels.
fn recurring_label_exec(title: &String) -> (r: bool)
    ensures
        r == is_recurring_label(title@),
{
    let t = chars_of(title.as_str());
    eq_str(&t, "Daily") || eq_str(&t, "Weekly") || eq_str(&t, "Monthly") || eq_str(&t, "Bi-Weekly")
        || eq_str(&t, "Quarterly") || eq_str(&t, "Yearly/Beyond")
}

impl Task {
    /// The description, an HTML text, rendered as plain text wrapped to
    /// `width` columns; `None` when the renderer reports an error.
    pub fn description_as_text(&self, width: usize) -> (r: Option<String>)
        ensures
            match r {
                Some(s) => html_text(self.description@, width) == Some(s@),
                None => html_text(self.description@, width) is None,
            },
    {
        match render_html(self.description.as_str(), width) {
            Ok(s) => Some(s),
            Err(_) => None,
        }
    }

    /// Whether the task carries one of the recurring labels (`Daily`,
    /// `Weekly`, `Monthly`, `Bi-Weekly`, `Quarterly`, `Yearly/Beyond`).
    pub fn is_recurring(&self) -> (r: bool)
        ensures
            r == has_recurring_label(self.labels),
    {
        match &self.labels {
            Some(labels) => {
                let mut i: usize = 0;
                while i < labels.len()
                    invariant
                        i <= labels@.len(),
                        self.labels == Some(*labels),
                        forall|k: int| 0 <= k < i ==> !is_recurring_label(#[trigger] labels@[k].title@),
                    decreases labels@.len() - i,
                {
                    if recurring_label_exec(&labels[i].title) {
                        proof {
                            let ls = self.labels->Some_0;
                            assert(is_recurring_label(ls@[i as int].title@));
                        }
                        return true;
                    }
                    i += 1;
                }
                false
            },
            None => false,
        }
    }
}

} // verus!
