//! Health status of the subsystems and the overall Go/NoGo decision.
use vstd::prelude::*;
use crate::text::{chars_of, eq_str};

verus! {

/// The possible status of one subsystem, or of the whole application.
#[derive(Debug, Clone, Copy, PartialEq, Eq, Structural)]
pub enum Status {
    Init,
    Go,
    Nogo,
    Degraded,
    Unknown,
}

/// The status of each subsystem.
#[derive(Debug, Clone, Copy, PartialEq, Eq, Structural)]
pub struct SystemsStatus {
    pub db: Status,
    pub log: Status,
    pub notes: Status,
    pub project: Status,
    pub printer: Status,
    pub todo: Status,
    pub shopping: Status,
}

/// The overall Go/NoGo status of the application.
#[derive(Debug, Clone, Copy, PartialEq, Eq, Structural)]
pub struct SystemsGoNogo {
    pub gono: Status,
}

/// A walk over the fields of a `SystemsStatus`, in declaration order.
pub struct SystemsIter {
    systems: SystemsStatus,
    index: usize,
}

/// Number of subsystems a `SystemsStatus` tracks.
pub open spec fn n_systems() -> int {
    7
}

/// The name under which the `i`-th subsystem is reported.
pub open spec fn system_name(i: int) -> Seq<char> {
    if i == 0 {
        seq!['d', 'b']
    } else if i == 1 {
        seq!['l', 'o', 'g']
    } else if i == 2 {
        seq!['n', 'o', 't', 'e', 's']
    } else if i == 3 {
        seq!['p', 'r', 'o', 'j', 'e', 'c', 't']
    } else if i == 4 {
        seq!['p', 'r', 'i', 'n', 't', 'e', 'r']
    } else if i == 5 {
        seq!['t', 'o', 'd', 'o']
    } else {
        seq!['s', 'h', 'o', 'p', 'p', 'i', 'n', 'g']
    }
}

/// The subsystem a name given to `SystemsStatus::update` refers to: each
/// reported name, plus `lists`, the name of the list subsystem that the
/// `shopping` slot tracks.
pub open spec fn system_index(name: Seq<char>) -> Option<int> {
    if name == system_name(0) {
        Some(0)
    } else if name == system_name(1) {
        Some(1)
    } else if name == system_name(2) {
        Some(2)
    } else if name == system_name(3) {
        Some(3)
    } else if name == system_name(4) {
        Some(4)
    } else if name == system_name(5) {
        Some(5)
    } else if name == system_name(6) || name == seq!['l', 'i', 's', 't', 's'] {
        Some(6)
    } else {
        None
    }
}

/// One step of the Go/NoGo combination: the overall status so far, combined
/// with the status of one more subsystem.
pub open spec fn combine(status: Status, x: Status) -> Status {
    match status {
        Status::Init | Status::Go => match x {
            Status::Go => Status::Go,
            Status::Nogo | Status::Degraded => Status::Degraded,
            _ => Status::Unknown,
        },
        Status::Nogo => Status::Nogo,
        Status::Degraded => match x {
            Status::Nogo => Status::Nogo,
            _ => Status::Degraded,
        },
        Status::Unknown => Status::Unknown,
    }
}

/// The overall status reached from `start` by combining `xs` in order.
pub open spec fn combine_all(start: Status, xs: Seq<Status>) -> Status
    decreases xs.len(),
{
    if xs.len() == 0 {
        start
    } else {
        combine(combine_all(start, xs.drop_last()), xs.last())
    }
}

impl SystemsStatus {
    /// The status of the `i`-th subsystem.
    pub open spec fn at(self, i: int) -> Status {
        if i == 0 {
            self.db
        } else if i == 1 {
            self.log
        } else if i == 2 {
            self.notes
        } else if i == 3 {
            self.project
        } else if i == 4 {
            self.printer
        } else if i == 5 {
            self.todo
        } else {
            self.shopping
        }
    }

    /// The statuses of all subsystems, in reporting order.
    pub open spec fn statuses(self) -> Seq<Status> {
        seq![self.db, self.log, self.notes, self.project, self.printer, self.todo, self.shopping]
    }

    /// `self` with the `i`-th subsystem set to `status`.
    pub open spec fn with(self, i: int, status: Status) -> SystemsStatus {
        SystemsStatus {
            db: if i == 0 { status } else { self.db },
            log: if i == 1 { status } else { self.log },
            notes: if i == 2 { status } else { self.notes },
            project: if i == 3 { status } else { self.project },
            printer: if i == 4 { status } else { self.printer },
            todo: if i == 5 { status } else { self.todo },
            shopping: if i == 6 { status } else { self.shopping },
        }
    }

    /// Every subsystem in `Status::Init`.
    pub fn new() -> (r: SystemsStatus)
        ensures
            forall|i: int| 0 <= i < n_systems() ==> r.at(i) == Status::Init,
    {
        SystemsStatus {
            db: Status::Init,
            log: Status::Init,
            notes: Status::Init,
            project: Status::Init,
            printer: Status::Init,
            todo: Status::Init,
            shopping: Status::Init,
        }
    }

    /// A walk over the subsystems' names and statuses.
    pub fn iter(&self) -> (r: SystemsIter)
        ensures
            r.remaining() == self.entries(),
    {
        let r = SystemsIter { systems: *self, index: 0 };
        assert(r.remaining() =~= self.entries());
        r
    }

    /// The `(name, status)` pairs of all subsystems, in reporting order.
    pub open spec fn entries(self) -> Seq<(Seq<char>, Status)> {
        Seq::new(n_systems() as nat, |i: int| (system_name(i), self.at(i)))
    }

    /// Sets the status of the subsystem called `val` (see `system_index`);
    /// an unknown name changes nothing. Returns the updated value.
    #[verifier::rlimit(30)]
    pub fn update(&mut self, val: &str, status: Status) -> (r: Self)
        ensures
            *final(self) == (match system_index(val@) {
                Some(i) => old(self).with(i, status),
                None => *old(self),
            }),
            r == *final(self),
    {
        let v = chars_of(val);
        proof {
            reveal_strlit("db");
            reveal_strlit("log");
            reveal_strlit("notes");
            reveal_strlit("project");
            reveal_strlit("printer");
            reveal_strlit("todo");
            reveal_strlit("shopping");
            reveal_strlit("lists");
            assert("db"@ =~= system_name(0));
            assert("log"@ =~= system_name(1));
            assert("notes"@ =~= system_name(2));
            assert("project"@ =~= system_name(3));
            assert("printer"@ =~= system_name(4));
            assert("todo"@ =~= system_name(5));
            assert("shopping"@ =~= system_name(6));
            assert("lists"@ =~= seq!['l', 'i', 's', 't', 's']);
        }
        if eq_str(&v, "db") {
            self.db = status;
        } else if eq_str(&v, "log") {
            self.log = status;
        } else if eq_str(&v, "notes") {
            self.notes = status;
        } else if eq_str(&v, "project") {
            self.project = status;
        } else if eq_str(&v, "printer") {
            self.printer = status;
        } else if eq_str(&v, "todo") {
            self.todo = status;
        } else if eq_str(&v, "shopping") || eq_str(&v, "lists") {
            self.shopping = status;
        }
        *self
    }
}

impl SystemsIter {
    /// The `(name, status)` pairs not yet returned by `next`.
    pub closed spec fn remaining(self) -> Seq<(Seq<char>, Status)> {
        if self.index <= 7 {
            self.systems.entries().skip(self.index as int)
        } else {
            seq![]
        }
    }

    /// The next subsystem's name and status, or `None` once all seven have
    /// been returned.
    pub fn next(&mut self) -> (r: Option<(&'static str, Status)>)
        ensures
            old(self).remaining().len() == 0 ==> r is None && final(self).remaining().len() == 0,
            old(self).remaining().len() > 0 ==> (r matches Some((name, st)) && name@ == old(
                self,
            ).remaining()[0].0 && st == old(self).remaining()[0].1) && final(self).remaining()
                == old(self).remaining().drop_first(),
    {
        proof {
            reveal_strlit("db");
            reveal_strlit("log");
            reveal_strlit("notes");
            reveal_strlit("project");
            reveal_strlit("printer");
            reveal_strlit("todo");
            reveal_strlit("shopping");
        }
        let result = if self.index == 0 {
            Some(("db", self.systems.db))
        } else if self.index == 1 {
            Some(("log", self.systems.log))
        } else if self.index == 2 {
            Some(("notes", self.systems.notes))
        } else if self.index == 3 {
            Some(("project", self.systems.project))
        } else if self.index == 4 {
            Some(("printer", self.systems.printer))
        } else if self.index == 5 {
            Some(("todo", self.systems.todo))
        } else if self.index == 6 {
            Some(("shopping", self.systems.shopping))
        } else {
            None
        };
        if self.index < 7 {
            self.index = self.index + 1;
        }
        proof {
            let es = old(self).systems.entries();
            if old(self).index < 7 {
                assert(es.skip(old(self).index as int).drop_first() =~= es.skip(self.index as int));
                reveal_strlit("db");
                assert(es.skip(old(self).index as int)[0] == es[old(self).index as int]);
            } else if old(self).index == 7 {
                assert(es.skip(7).len() == 0);
            }
        }
        result
    }
}

impl SystemsGoNogo {
    /// The overall status, initially `Status::Init`.
    pub fn new() -> (r: SystemsGoNogo)
        ensures
            r.gono == Status::Init,
    {
        SystemsGoNogo { gono: Status::Init }
    }

    /// Sets the overall status from the subsystems' statuses, starting from
    /// the current one (see `gonogo`).
    pub fn calculate_initial_status(&mut self, systems: SystemsStatus)
        ensures
            final(self).gono == combine_all(old(self).gono, systems.statuses()),
    {
        *self = self.gonogo(systems);
    }

    /// Combines the current overall status with each subsystem's status in
    /// turn (`combine`), stores the result and returns the updated value.
    #[verifier::rlimit(30)]
    pub fn gonogo(&mut self, all_sys: SystemsStatus) -> (r: SystemsGoNogo)
        ensures
            final(self).gono == combine_all(old(self).gono, all_sys.statuses()),
            r == *final(self),
    {
        let mut it = all_sys.iter();
        let ghost xs = all_sys.statuses();
        let ghost start = self.gono;
        let ghost mut k: int = 0;
        assert(it.remaining().len() == 7);
        loop
            invariant
                0 <= k <= 7,
                start == old(self).gono,
                xs == all_sys.statuses(),
                it.remaining() == all_sys.entries().skip(k),
                self.gono == combine_all(start, xs.take(k)),
            ensures
                self.gono == combine_all(start, xs),
            decreases 7 - k,
        {
            match it.next() {
                Some((_, x)) => {
                    let n_status: Status = match self.gono {
                        Status::Init => match x {
                            Status::Go => Status::Go,
                            Status::Nogo | Status::Degraded => Status::Degraded,
                            _ => Status::Unknown,
                        },
                        Status::Go => match x {
                            Status::Go => Status::Go,
                            Status::Nogo | Status::Degraded => Status::Degraded,
                            _ => Status::Unknown,
                        },
                        Status::Nogo => Status::Nogo,
                        Status::Degraded => match x {
                            Status::Nogo => Status::Nogo,
                            _ => Status::Degraded,
                        },
                        _ => Status::Unknown,
                    };
                    self.gono = n_status;
                    proof {
                        assert(all_sys.entries().skip(k)[0] == all_sys.entries()[k]);
                        assert(xs.take(k + 1).drop_last() =~= xs.take(k));
                        assert(xs.take(k + 1).last() == xs[k]);
                        assert(all_sys.entries().skip(k).drop_first() =~= all_sys.entries().skip(
                            k + 1,
                        ));
                        k = k + 1;
                    }
                },
                None => {
                    assert(k == 7);
                    assert(xs.take(7) =~= xs);
                    break;
                },
            }
        }
        *self
    }
}

// ---------------------------------------------------------------------------
// Laws
// ---------------------------------------------------------------------------

/// Once the overall status is `Nogo`, no subsystem status changes it.
pub proof fn lemma_nogo_is_final(xs: Seq<Status>)
    ensures
        combine_all(Status::Nogo, xs) == Status::Nogo,
    decreases xs.len(),
{
    if xs.len() > 0 {
        lemma_nogo_is_final(xs.drop_last());
    }
}

/// Once the overall status is `Unknown`, no subsystem status changes it.
pub proof fn lemma_unknown_is_final(xs: Seq<Status>)
    ensures
        combine_all(Status::Unknown, xs) == Status::Unknown,
    decreases xs.len(),
{
    if xs.len() > 0 {
        lemma_unknown_is_final(xs.drop_last());
    }
}

/// Starting from `Init` or `Go`, subsystems that are all `Go` give `Go`.
pub proof fn lemma_all_go(start: Status, xs: Seq<Status>)
    requires
        start == Status::Init || start == Status::Go,
        forall|i: int| 0 <= i < xs.len() ==> xs[i] == Status::Go,
    ensures
        xs.len() > 0 ==> combine_all(start, xs) == Status::Go,
        xs.len() == 0 ==> combine_all(start, xs) == start,
    decreases xs.len(),
{
    if xs.len() > 0 {
        lemma_all_go(start, xs.drop_last());
    }
}

/// Starting from `Degraded`, the result is `Nogo` if some subsystem is
/// `Nogo`, and `Degraded` otherwise.
pub proof fn lemma_from_degraded(xs: Seq<Status>)
    ensures
        combine_all(Status::Degraded, xs) == if xs.contains(Status::Nogo) {
            Status::Nogo
        } else {
            Status::Degraded
        },
    decreases xs.len(),
{
    if xs.len() > 0 {
        lemma_from_degraded(xs.drop_last());
        if xs.drop_last().contains(Status::Nogo) {
            let j = choose|j: int| 0 <= j < xs.drop_last().len() && xs.drop_last()[j] == Status::Nogo;
            assert(xs[j] == Status::Nogo);
        }
        if xs.contains(Status::Nogo) && xs.last() != Status::Nogo {
            let j = choose|j: int| 0 <= j < xs.len() && xs[j] == Status::Nogo;
            assert(xs.drop_last()[j] == Status::Nogo);
        }
        if xs.last() == Status::Nogo {
            lemma_nogo_is_final(seq![]);
            assert(xs[xs.len() - 1] == Status::Nogo);
        }
    }
}

/// Starting from `Init` or `Go` with every subsystem `Go` or `Nogo`, a single
/// `Nogo` gives `Degraded`, and two or more give `Nogo`.
pub proof fn lemma_nogo_count(start: Status, xs: Seq<Status>)
    requires
        start == Status::Init || start == Status::Go,
        forall|i: int| 0 <= i < xs.len() ==> xs[i] == Status::Go || xs[i] == Status::Nogo,
    ensures
        xs.filter(|x: Status| x == Status::Nogo).len() == 1 ==> combine_all(start, xs)
            == Status::Degraded,
        xs.filter(|x: Status| x == Status::Nogo).len() >= 2 ==> combine_all(start, xs)
            == Status::Nogo,
    decreases xs.len(),
{
    if xs.len() > 0 {
        let ys = xs.drop_last();
        lemma_nogo_count(start, ys);
        assert(xs =~= ys.push(xs.last()));
        ys.lemma_filter_push(xs.last(), |x: Status| x == Status::Nogo);
        let n = ys.filter(|x: Status| x == Status::Nogo).len();
        if n == 0 {
            lemma_no_nogo_stays_go(start, ys);
        }
        if n >= 2 {
            lemma_nogo_is_final(seq![xs.last()]);
            assert(combine_all(Status::Nogo, seq![xs.last()]) == combine(Status::Nogo, xs.last()));
        }
    }
}

/// Helper: without any `Nogo`, `Go`-or-`Nogo` subsystems keep `Init`/`Go`
/// starting points at `start` (empty) or `Go`.
proof fn lemma_no_nogo_stays_go(start: Status, ys: Seq<Status>)
    requires
        start == Status::Init || start == Status::Go,
        forall|i: int| 0 <= i < ys.len() ==> ys[i] == Status::Go || ys[i] == Status::Nogo,
        ys.filter(|x: Status| x == Status::Nogo).len() == 0,
    ensures
        combine_all(start, ys) == Status::Init || combine_all(start, ys) == Status::Go,
    decreases ys.len(),
{
    if ys.len() > 0 {
        let zs = ys.drop_last();
        assert(ys =~= zs.push(ys.last()));
        zs.lemma_filter_push(ys.last(), |x: Status| x == Status::Nogo);
        lemma_no_nogo_stays_go(start, zs);
    }
}

/// Starting from `Init` or `Go`, the overall status is `Go` exactly when
/// every subsystem is `Go`; and when none is `Nogo` or `Degraded` but some
/// subsystem is `Unknown` or still `Init`, it is `Unknown`.
pub proof fn lemma_go_needs_every_go(start: Status, xs: Seq<Status>)
    requires
        start == Status::Init || start == Status::Go,
        xs.len() > 0,
    ensures
        combine_all(start, xs) == Status::Go <==> forall|i: int| 0 <= i < xs.len() ==> xs[i] == Status::Go,
        (forall|i: int| 0 <= i < xs.len() ==> xs[i] != Status::Nogo && xs[i] != Status::Degraded) && (exists|i: int|
            0 <= i < xs.len() && (xs[i] == Status::Unknown || xs[i] == Status::Init)) ==> combine_all(start, xs)
            == Status::Unknown,
    decreases xs.len(),
{
    let ys = xs.drop_last();
    let x = xs.last();
    assert(x == xs[xs.len() - 1]);
    assert(combine_all(start, xs) == combine(combine_all(start, ys), x));
    if x == Status::Go && forall|i: int| 0 <= i < ys.len() ==> ys[i] == Status::Go {
        assert forall|i: int| 0 <= i < xs.len() implies xs[i] == Status::Go by {
            if i < ys.len() {
                assert(xs[i] == ys[i]);
            }
        }
    }
    if ys.len() == 0 {
        assert(combine_all(start, ys) == start);
    } else {
        lemma_go_needs_every_go(start, ys);
        let p = combine_all(start, ys);
        lemma_never_init(start, ys);
        if forall|i: int| 0 <= i < ys.len() ==> ys[i] == Status::Go {
            assert(p == Status::Go);
        } else {
            assert(p != Status::Go);
            let k = choose|i: int| 0 <= i < ys.len() && ys[i] != Status::Go;
            assert(xs[k] == ys[k]);
            if forall|i: int| 0 <= i < xs.len() ==> xs[i] != Status::Nogo && xs[i] != Status::Degraded {
                assert(ys[k] != Status::Nogo && ys[k] != Status::Degraded);
                assert(forall|i: int| 0 <= i < ys.len() ==> ys[i] == xs[i]);
                assert(p == Status::Unknown);
            }
        }
        if (forall|i: int| 0 <= i < xs.len() ==> xs[i] != Status::Nogo && xs[i] != Status::Degraded) && (exists|
            i: int,
        | 0 <= i < xs.len() && (xs[i] == Status::Unknown || xs[i] == Status::Init)) {
            let w = choose|i: int| 0 <= i < xs.len() && (xs[i] == Status::Unknown || xs[i] == Status::Init);
            if w < ys.len() {
                assert(ys[w] == xs[w]);
                assert(forall|i: int| 0 <= i < ys.len() ==> ys[i] == xs[i]);
                assert(p == Status::Unknown);
            }
        }
    }
}

/// Combining never gives back `Init`: after at least one subsystem the
/// overall status is settled.
proof fn lemma_never_init(start: Status, ys: Seq<Status>)
    requires
        ys.len() > 0,
    ensures
        combine_all(start, ys) != Status::Init,
{
}

} // verus!
