use asset_baker::animation::{bake_sheets, AnimationTag, BakedTag, RawTag};
use asset_baker::error::BakeError;

fn tag(name: &str, from: i64, to: i64) -> RawTag {
    RawTag { name: Some(name.to_string()), from: Some(from), to: Some(to) }
}

fn entry(name: &str, frame_count: u128) -> BakedTag {
    BakedTag { name: name.to_string(), frame_count }
}

#[test]
fn walk_and_idle_tags_bake_in_order() {
    let sheets = vec![Some(vec![tag("Walk", 0, 3), tag("Idle", 4, 4)])];
    assert_eq!(bake_sheets(&sheets), Ok(vec![entry("Walk", 4), entry("Idle", 1)]));
}

#[test]
fn a_name_defined_in_two_sheets_stays_twice() {
    let sheets = vec![Some(vec![tag("Run", 0, 1)]), Some(vec![tag("Run", 2, 5)])];
    assert_eq!(bake_sheets(&sheets), Ok(vec![entry("Run", 2), entry("Run", 4)]));
}

#[test]
fn a_name_defined_twice_in_one_sheet_stays_twice() {
    let sheets = vec![Some(vec![tag("Run", 0, 1), tag("Run", 0, 1), tag("Run", 3, 3)])];
    assert_eq!(
        bake_sheets(&sheets),
        Ok(vec![entry("Run", 2), entry("Run", 2), entry("Run", 1)])
    );
}

#[test]
fn the_frame_count_is_the_length_of_the_range() {
    let count = |from: i64, to: i64| {
        AnimationTag { name: "t".to_string(), from, to }.frame_count()
    };
    assert_eq!(count(0, 0), Some(1));
    assert_eq!(count(0, 3), Some(4));
    assert_eq!(count(4, 4), Some(1));
    assert_eq!(count(2, 5), Some(4));
    assert_eq!(count(-2, 3), Some(6));
    assert_eq!(count(-7, -7), Some(1));
    assert_eq!(count(0, i64::MAX), Some(9_223_372_036_854_775_808));
    assert_eq!(count(i64::MIN, i64::MAX), Some(18_446_744_073_709_551_616));
}

#[test]
fn a_tag_that_ends_before_it_starts_has_no_frame_count() {
    let count = |from: i64, to: i64| {
        AnimationTag { name: "t".to_string(), from, to }.frame_count()
    };
    assert_eq!(count(1, 0), None);
    assert_eq!(count(5, 2), None);
    assert_eq!(count(i64::MAX, i64::MIN), None);
    assert_eq!(AnimationTag { name: "t".to_string(), from: 3, to: 2 }.bake(), None);
    assert_eq!(tag("t", 3, 2).bake(), None);
}

#[test]
fn a_missing_name_becomes_unknown() {
    let nameless = RawTag { name: None, from: Some(1), to: Some(2) };
    assert_eq!(
        nameless.resolve(),
        AnimationTag { name: "unknown".to_string(), from: 1, to: 2 }
    );
    assert_eq!(nameless.bake(), Some(entry("unknown", 2)));
}

#[test]
fn a_missing_bound_is_zero() {
    let open_start = RawTag { name: Some("a".to_string()), from: None, to: Some(2) };
    assert_eq!(open_start.resolve(), AnimationTag { name: "a".to_string(), from: 0, to: 2 });
    assert_eq!(open_start.bake(), Some(entry("a", 3)));
    let open_end = RawTag { name: Some("b".to_string()), from: Some(-4), to: None };
    assert_eq!(open_end.resolve(), AnimationTag { name: "b".to_string(), from: -4, to: 0 });
    assert_eq!(open_end.bake(), Some(entry("b", 5)));
    let bare = RawTag { name: None, from: None, to: None };
    assert_eq!(bare.bake(), Some(entry("unknown", 1)));
    let ends_early = RawTag { name: Some("c".to_string()), from: Some(1), to: None };
    assert_eq!(ends_early.bake(), None);
}

#[test]
fn resolve_keeps_what_the_tag_gives() {
    assert_eq!(
        tag("Walk", 0, 3).resolve(),
        AnimationTag { name: "Walk".to_string(), from: 0, to: 3 }
    );
    assert_eq!(
        AnimationTag { name: "Walk".to_string(), from: 0, to: 3 }.bake(),
        Some(entry("Walk", 4))
    );
}

#[test]
fn a_malformed_tag_fails_the_bake_with_its_position() {
    let sheets = vec![
        Some(vec![tag("a", 0, 1)]),
        Some(vec![tag("b", 0, 0), tag("c", 2, 1), tag("d", 0, 0)]),
    ];
    assert_eq!(bake_sheets(&sheets), Err(BakeError::MalformedTag { file: 1, tag: 1 }));
}

#[test]
fn a_sheet_that_was_not_loaded_fails_the_bake_with_its_position() {
    let sheets = vec![Some(vec![tag("a", 0, 1)]), None, Some(vec![tag("b", 0, 1)])];
    assert_eq!(bake_sheets(&sheets), Err(BakeError::Load { file: 1 }));
    assert_eq!(bake_sheets(&vec![None]), Err(BakeError::Load { file: 0 }));
}

#[test]
fn the_first_failure_is_the_one_reported() {
    let malformed_first = vec![Some(vec![tag("a", 1, 0), tag("b", 9, 0)]), None];
    assert_eq!(
        bake_sheets(&malformed_first),
        Err(BakeError::MalformedTag { file: 0, tag: 0 })
    );
    let unloaded_first = vec![None, Some(vec![tag("a", 1, 0)])];
    assert_eq!(bake_sheets(&unloaded_first), Err(BakeError::Load { file: 0 }));
}

#[test]
fn no_sheets_and_sheets_without_tags_give_an_empty_table() {
    assert_eq!(bake_sheets(&vec![]), Ok(vec![]));
    assert_eq!(bake_sheets(&vec![Some(vec![]), Some(vec![])]), Ok(vec![]));
    let sheets = vec![Some(vec![]), Some(vec![tag("a", 0, 0)]), Some(vec![])];
    assert_eq!(bake_sheets(&sheets), Ok(vec![entry("a", 1)]));
}

#[test]
fn baking_two_lists_of_sheets_together_concatenates_their_tables() {
    let first = vec![Some(vec![tag("Walk", 0, 3), tag("Idle", 4, 4)]), Some(vec![])];
    let second = vec![Some(vec![tag("Run", 2, 5)]), Some(vec![tag("Walk", 1, 1)])];
    let mut both = first.clone();
    both.extend(second.clone());
    let mut expected = bake_sheets(&first).expect("the first sheets bake");
    expected.extend(bake_sheets(&second).expect("the second sheets bake"));
    assert_eq!(bake_sheets(&both), Ok(expected));
    assert_eq!(
        bake_sheets(&both),
        Ok(vec![entry("Walk", 4), entry("Idle", 1), entry("Run", 4), entry("Walk", 1)])
    );
}

#[test]
fn the_order_of_the_sheets_is_the_order_of_the_table() {
    let forward = vec![Some(vec![tag("a", 0, 0)]), Some(vec![tag("b", 0, 1)])];
    let backward = vec![Some(vec![tag("b", 0, 1)]), Some(vec![tag("a", 0, 0)])];
    assert_eq!(bake_sheets(&forward), Ok(vec![entry("a", 1), entry("b", 2)]));
    assert_eq!(bake_sheets(&backward), Ok(vec![entry("b", 2), entry("a", 1)]));
}

#[test]
fn baking_sheets_twice_gives_the_same_table() {
    let sheets = vec![Some(vec![tag("Walk", 0, 3)]), Some(vec![tag("Idle", 4, 4)])];
    assert_eq!(bake_sheets(&sheets), bake_sheets(&sheets));
    let failing = vec![Some(vec![tag("Walk", 3, 0)])];
    assert_eq!(bake_sheets(&failing), bake_sheets(&failing));
}
