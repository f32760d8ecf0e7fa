use ushell::autocomplete::{Autocomplete, FnAutocomplete, NoAutocomplete, StaticAutocomplete};

#[test]
fn suggest_empty_prefix_returns_nothing() {
    let a = StaticAutocomplete(["ls", "pwd", "exit"]);
    assert_eq!(a.suggest(""), None);
}

#[test]
fn suggest_unique_prefix_returns_remaining_suffix() {
    let a = StaticAutocomplete(["ls", "pwd", "exit"]);
    assert_eq!(a.suggest("e").as_deref(), Some("xit"));
    assert_eq!(a.suggest("pw").as_deref(), Some("d"));
}

#[test]
fn suggest_unmatched_prefix_returns_nothing() {
    let a = StaticAutocomplete(["ls", "pwd", "exit"]);
    assert_eq!(a.suggest("z"), None);
    assert_eq!(a.suggest("lsx"), None);
}

#[test]
fn suggest_returns_first_match_in_table_order() {
    let a = StaticAutocomplete(["foobar", "foo"]);
    assert_eq!(a.suggest("fo").as_deref(), Some("obar"));
    let b = StaticAutocomplete(["foo", "foobar"]);
    assert_eq!(b.suggest("foo").as_deref(), Some(""));
}

#[test]
fn suggest_whole_candidate_completes_to_empty_suffix() {
    let a = StaticAutocomplete(["ls"]);
    assert_eq!(a.suggest("ls").as_deref(), Some(""));
}

#[test]
fn no_autocomplete_never_suggests() {
    let a = NoAutocomplete;
    assert_eq!(a.suggest(""), None);
    assert_eq!(a.suggest("anything"), None);
}

#[test]
fn fn_autocomplete_delegates_to_the_function() {
    let a = FnAutocomplete::new(|prefix: &str| {
        if prefix == "he" {
            Some(String::from("lp"))
        } else {
            None
        }
    });
    assert_eq!(a.suggest("he").as_deref(), Some("lp"));
    assert_eq!(a.suggest("xx"), None);
}
