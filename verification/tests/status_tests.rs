use manage_dan::status::{Status, SystemsGoNogo, SystemsStatus};

#[test]
fn update() {
    let mut systems = SystemsStatus::new();
    assert_eq!(systems.project, Status::Init);
    systems.update("log", Status::Degraded);
    assert_eq!(systems.log, Status::Degraded);
    systems.update("project", Status::Nogo);
    assert_eq!(systems.project, Status::Nogo);
    systems.update("db", Status::Nogo);
    assert_eq!(systems.db, Status::Nogo);
}

fn all_go() -> SystemsStatus {
    let mut systems = SystemsStatus::new();
    systems.update("db", Status::Go);
    systems.update("log", Status::Go);
    systems.update("notes", Status::Go);
    systems.update("project", Status::Go);
    systems.update("printer", Status::Go);
    systems.update("todo", Status::Go);
    systems.update("lists", Status::Go);
    systems
}

#[test]
fn nogogo() {
    let mut systems = all_go();
    let mut status = SystemsGoNogo::new();
    assert_eq!(status.gono, Status::Init);
    status.gonogo(systems);
    assert_eq!(status.gono, Status::Go);
    systems.update("log", Status::Degraded);
    status.gonogo(systems);
    assert_eq!(status.gono, Status::Degraded);
    systems = all_go();
    systems.update("db", Status::Nogo);
    systems.update("printer", Status::Nogo);
    status.gono = Status::Init;
    status.gonogo(systems);
    assert_eq!(status.gono, Status::Nogo);
    systems = all_go();
    systems.update("project", Status::Unknown);
    status.gono = Status::Degraded;
    status.gonogo(systems);
    assert_eq!(status.gono, Status::Degraded);
    systems = all_go();
    systems.update("project", Status::Degraded);
    systems.update("printer", Status::Init);
    status.gono = Status::Go;
    status.gonogo(systems);
    assert_eq!(status.gono, Status::Degraded);
}

#[test]
fn unknown_subsystem_name_changes_nothing() {
    let mut systems = SystemsStatus::new();
    let before = systems;
    systems.update("no-such-system", Status::Nogo);
    assert_eq!(systems, before);
}

#[test]
fn lists_name_updates_the_shopping_slot() {
    let mut systems = SystemsStatus::new();
    systems.update("lists", Status::Go);
    assert_eq!(systems.shopping, Status::Go);
}

#[test]
fn a_nogo_overall_status_stays_nogo() {
    let mut status = SystemsGoNogo::new();
    status.gono = Status::Nogo;
    status.gonogo(all_go());
    assert_eq!(status.gono, Status::Nogo);
}

#[test]
fn an_unknown_overall_status_stays_unknown() {
    let mut status = SystemsGoNogo::new();
    status.gono = Status::Unknown;
    status.gonogo(all_go());
    assert_eq!(status.gono, Status::Unknown);
}

#[test]
fn a_single_nogo_only_degrades_a_go_status() {
    let mut systems = all_go();
    systems.update("todo", Status::Nogo);
    let mut status = SystemsGoNogo::new();
    status.gono = Status::Go;
    let r = status.gonogo(systems);
    assert_eq!(r.gono, Status::Degraded);
    assert_eq!(status.gono, Status::Degraded);
}

#[test]
fn calculate_initial_status_combines_from_init() {
    let mut status = SystemsGoNogo::new();
    status.calculate_initial_status(all_go());
    assert_eq!(status.gono, Status::Go);
}

#[test]
fn iter_walks_subsystems_in_order() {
    let systems = all_go();
    let mut it = systems.iter();
    let mut names = Vec::new();
    while let Some((name, st)) = it.next() {
        assert_eq!(st, Status::Go);
        names.push(name);
    }
    assert_eq!(names, vec!["db", "log", "notes", "project", "printer", "todo", "shopping"]);
}
