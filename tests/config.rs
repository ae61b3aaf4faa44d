use cookcore::config::{run, ConfigAction, ConfigArgs};

#[test]
fn setup_wins() {
    let a = ConfigArgs { setup: true, global: true, default: false };
    assert_eq!(run(&a), ConfigAction::Setup);
}

#[test]
fn global_or_regular() {
    assert_eq!(run(&ConfigArgs { setup: false, global: true, default: false }), ConfigAction::DisplayGlobal);
    assert_eq!(run(&ConfigArgs { setup: false, global: false, default: true }), ConfigAction::DisplayRegular);
}
