use manage_dan::tasks::init;

#[test]
fn lib_it_works() {
    let result = init();
    assert!(result.is_ok());
}
