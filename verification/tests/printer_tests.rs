use manage_dan::printer::{mode_backend, EscposCommand, PrintJob, PrintOutput, PrinterBackend, PrinterManager, TERMINAL_WIDTH};

#[test]
fn terminal_mode_init_succeeds() {
    let mgr = PrinterManager::init_terminal();
    let job = PrintJob::new("test".into(), "TEST TICKET".into(), vec!["Line 1".into(), "Line 2".into()]);
    assert!(mgr.execute_job(job).is_ok());
}

#[test]
fn terminal_rendering_frames_the_job_in_a_box() {
    let job = PrintJob::new("origin".into(), "TITLE".into(), vec!["hello".into(), "".into()]);
    let rows = PrinterManager::execute_terminal(&job);
    // blank, top border, title, origin, separator, two body rows, bottom border, blank
    assert_eq!(rows.len(), 9);
    assert_eq!(rows[0], "");
    assert!(rows[1].starts_with('\u{2554}') && rows[1].ends_with('\u{2557}'));
    assert_eq!(rows[2].chars().count(), TERMINAL_WIDTH + 2);
    assert!(rows[2].starts_with("\u{2551} TITLE"));
    assert!(rows[3].starts_with("\u{2551} origin"));
    assert!(rows[5].starts_with("\u{2551} hello"));
    assert!(rows[7].starts_with('\u{255a}'));
    assert_eq!(rows[8], "");
}

#[test]
fn long_lines_wrap_onto_several_rows() {
    let long: String = std::iter::repeat('x').take(100).collect();
    let job = PrintJob::new("o".into(), "t".into(), vec![long]);
    let rows = PrinterManager::execute_terminal(&job);
    // 100 characters at 47 per row: three rows
    assert_eq!(rows.len(), 10);
}

#[test]
fn usb_job_writes_title_origin_lines_and_cuts() {
    let job = PrintJob::new("o".into(), "t".into(), vec!["a".into(), "b".into()]);
    let cmds = PrinterManager::execute_usb(&job);
    assert_eq!(cmds.len(), 12);
    assert!(matches!(cmds[2], EscposCommand::Writeln(ref s) if s == "t"));
    assert!(matches!(cmds[5], EscposCommand::Writeln(ref s) if s == "o"));
    assert!(matches!(cmds[8], EscposCommand::Writeln(ref s) if s == "a"));
    assert!(matches!(cmds[11], EscposCommand::PrintCut));
}

#[test]
fn usb_manager_produces_escpos_commands() {
    let mgr = PrinterManager::init_usb();
    let job = PrintJob::new("o".into(), "t".into(), vec![]);
    match mgr.execute_job(job) {
        Ok(PrintOutput::Usb(cmds)) => assert_eq!(cmds.len(), 10),
        _ => panic!("a USB manager yields ESC/POS commands"),
    }
}

#[test]
fn mode_usb_selects_the_usb_backend() {
    assert_eq!(mode_backend("usb"), PrinterBackend::Usb);
    assert_eq!(mode_backend("terminal"), PrinterBackend::Terminal);
    assert_eq!(mode_backend("anything"), PrinterBackend::Terminal);
}

#[test]
fn every_box_row_is_as_wide_as_the_borders() {
    let title: String = std::iter::repeat('T').take(60).collect();
    let origin: String = std::iter::repeat('o').take(48).collect();
    let line: String = std::iter::repeat('x').take(47).collect();
    let job = PrintJob::new(origin, title, vec![line, "".into()]);
    let rows = PrinterManager::execute_terminal(&job);
    for row in &rows[1..rows.len() - 1] {
        assert_eq!(row.chars().count(), TERMINAL_WIDTH + 2);
    }
    let expected_title: String = std::iter::repeat('T').take(TERMINAL_WIDTH - 1).collect();
    assert_eq!(rows[2], format!("\u{2551} {}\u{2551}", expected_title));
}
