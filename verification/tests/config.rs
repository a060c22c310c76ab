use divan::config::{resolve, Options, DEFAULT_SAMPLE_COUNT, DEFAULT_SAMPLE_SIZE};

fn opts(sample_count: Option<u32>, sample_size: Option<u32>, ignore: Option<bool>) -> Options {
    Options { sample_count, sample_size, ignore, display_name: None }
}

#[test]
fn group_declaration_cascades_to_child() {
    // An enclosing group declares sample_count = 100; the entry declares
    // nothing, so it resolves to 100.
    let cli = Options::none();
    let env = Options::none();
    let own = Options::none();
    let groups = vec![opts(Some(100), None, None)];
    let resolved = resolve(&cli, &env, &own, &groups);
    assert_eq!(resolved.sample_count, 100);
}

#[test]
fn command_line_overrides_every_declaration() {
    // `--sample-count=7` wins over any declared value at any level.
    let cli = opts(Some(7), None, None);
    let env = opts(Some(55), None, None);
    let own = opts(Some(42), None, None);
    let groups = vec![opts(Some(100), None, None), opts(Some(200), None, None)];
    let resolved = resolve(&cli, &env, &own, &groups);
    assert_eq!(resolved.sample_count, 7);
}

#[test]
fn environment_beats_declarations_but_not_cli() {
    let cli = Options::none();
    let env = opts(Some(55), None, None);
    let own = opts(Some(42), None, None);
    let groups = vec![opts(Some(100), None, None)];
    let resolved = resolve(&cli, &env, &own, &groups);
    assert_eq!(resolved.sample_count, 55);
}

#[test]
fn entry_declaration_beats_groups() {
    let cli = Options::none();
    let env = Options::none();
    let own = opts(Some(42), Some(3), Some(true));
    let groups = vec![opts(Some(100), Some(500), Some(false))];
    let resolved = resolve(&cli, &env, &own, &groups);
    assert_eq!(resolved.sample_count, 42);
    assert_eq!(resolved.sample_size, 3);
    assert!(resolved.ignore);
}

#[test]
fn inner_group_beats_outer_group() {
    let cli = Options::none();
    let env = Options::none();
    let own = Options::none();
    let groups = vec![
        opts(None, Some(1), None),
        opts(Some(100), Some(500), None),
    ];
    let resolved = resolve(&cli, &env, &own, &groups);
    // The inner group declares only sample_size; sample_count falls through
    // to the outer group.
    assert_eq!(resolved.sample_count, 100);
    assert_eq!(resolved.sample_size, 1);
}

#[test]
fn defaults_apply_when_nothing_declares() {
    let cli = Options::none();
    let env = Options::none();
    let own = Options::none();
    let groups: Vec<Options> = Vec::new();
    let resolved = resolve(&cli, &env, &own, &groups);
    assert_eq!(resolved.sample_count, DEFAULT_SAMPLE_COUNT);
    assert_eq!(resolved.sample_size, DEFAULT_SAMPLE_SIZE);
    assert!(!resolved.ignore);
    assert!(resolved.display_name.is_none());
}

#[test]
fn resolution_is_deterministic() {
    let cli = opts(None, Some(9), None);
    let env = opts(Some(55), None, None);
    let own = opts(None, None, Some(true));
    let groups = vec![opts(Some(100), Some(500), Some(false))];
    let first = resolve(&cli, &env, &own, &groups);
    let second = resolve(&cli, &env, &own, &groups);
    assert_eq!(first.sample_count, second.sample_count);
    assert_eq!(first.sample_size, second.sample_size);
    assert_eq!(first.ignore, second.ignore);
    assert_eq!(first.sample_count, 55);
    assert_eq!(first.sample_size, 9);
    assert!(first.ignore);
}
