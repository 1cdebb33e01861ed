//! Names, and texts in order.

use qcode::base::BaseId;
use qcode::names::{hex_value, split_suffix, LocalNames, Name};
use qcode::sort::{comes_before, sort};
use qcode::text::{decimal, hex_name};

#[test]
fn suffixes_split_as_they_render() {
    assert_eq!(split_suffix("tmp_7"), ("tmp", 7));
    assert_eq!(split_suffix("tmp_07"), ("tmp_07", 0));
    assert_eq!(split_suffix("tmp_0"), ("tmp_0", 0));
    assert_eq!(split_suffix("tmp"), ("tmp", 0));
    assert_eq!(split_suffix("_7"), ("_7", 0));
    assert_eq!(split_suffix("a_b_12"), ("a_b", 12));
    assert_eq!(split_suffix("x_99999999999"), ("x_99999999999", 0));
    assert_eq!(hex_value("2100"), Some(0x2100));
    assert_eq!(hex_value("02100"), None);
    assert_eq!(hex_value("0"), Some(0));
}

/// The table agrees with one flat map of strings, whichever tier a name lands
/// in.
#[test]
fn the_table_behaves_as_one_map() {
    let mut table: LocalNames<u32> = LocalNames::new();
    let register = |table: &mut LocalNames<u32>, text: &str, id: u32| {
        let name = table.parse(text);
        table.register(name, id)
    };
    let mint = |table: &mut LocalNames<u32>, base: BaseId, id: u32| {
        let name = table.register_unique(base, id);
        table.render(name)
    };
    for (text, id) in [("rax", 2), ("rax_2", 3), ("rax_007", 4), ("rax_9000", 5)] {
        register(&mut table, text, id).unwrap();
        assert!(register(&mut table, text, 99).is_err(), "{text} twice");
        assert_eq!(table.get(text), Some(id), "{text}");
    }
    table.label(0x2100, 1).unwrap();
    assert!(table.label(0x2100, 9).is_err());
    assert_eq!(table.get("2100"), Some(1));
    assert!(register(&mut table, "2100", 9).is_err(), "a label is a name");
    assert_eq!(table.get("02100"), None);
    assert_eq!(table.get("rax_7"), None);
    assert_eq!(table.get("rax_1"), None);
    // Minting skips every taken suffix, whichever tier holds it.
    let rax = table.intern("rax");
    assert_eq!(mint(&mut table, rax, 6), "rax_1");
    assert_eq!(mint(&mut table, rax, 7), "rax_3");
    let rbx = table.intern("rbx");
    assert_eq!(mint(&mut table, rbx, 8), "rbx");
    let hex = table.intern("2100");
    assert_eq!(mint(&mut table, hex, 8), "2100_1");
    assert_eq!(table.get("2100_1"), Some(8));
    // Freeing lowers the hint; a far suffix is skipped when reached.
    let rax_2 = table.parse("rax_2");
    table.forget(rax_2);
    assert_eq!(table.get("rax_2"), None);
    assert_eq!(mint(&mut table, rax, 9), "rax_2");
    for id in 10..9010u32 {
        assert_ne!(mint(&mut table, rax, id), "rax_9000", "the far suffix is taken");
    }
    assert_eq!(table.get("rax_9000"), Some(5));
    // Every name registered is listed exactly once.
    let mut names: Vec<String> = table.entries().into_iter().map(|(name, _)| name).collect();
    let listed = names.len();
    names.sort();
    names.dedup();
    assert_eq!(names.len(), listed);
    assert_eq!(listed, 4 + 1 + 3 + 1 + 9000);
    // Forgetting the bare name frees it for the next mint; forgetting
    // the label frees the spelling.
    let bare = table.parse("rax");
    table.forget(bare);
    assert_eq!(mint(&mut table, rax, 1), "rax");
    table.forget_label(0x2100);
    assert_eq!(table.get("2100"), None);
    register(&mut table, "2100", 9).unwrap();
    assert!(table.label(0x2100, 1).is_err(), "a name is a label");
}

#[test]
fn a_far_name_is_freed_too() {
    let mut table: LocalNames<u32> = LocalNames::new();
    let far = table.parse("v_9000");
    table.register(far, 1).unwrap();
    assert_eq!(table.get("v_9000"), Some(1));
    table.forget(far);
    assert_eq!(table.get("v_9000"), None);
    table.register(far, 2).unwrap();
    assert_eq!(table.get("v_9000"), Some(2));
}

#[test]
fn numbers_as_text() {
    assert_eq!(decimal(0), "0");
    assert_eq!(decimal(u64::MAX), "18446744073709551615");
    assert_eq!(hex_name(0), "0");
    assert_eq!(hex_name(0xdead_beef), "deadbeef");
}

#[test]
fn texts_come_in_dictionary_order() {
    assert!(comes_before("a", "b"));
    assert!(comes_before("a", "aa"));
    assert!(comes_before("", "a"));
    assert!(comes_before("Z", "a"));
    assert!(!comes_before("b", "ab"));
    assert!(!comes_before("a", "a"));
    let texts: Vec<String> = ["c", "", "ab", "a", "ab", "\u{e9}"]
        .iter()
        .map(|t| t.to_string())
        .collect();
    let mut expected = texts.clone();
    expected.sort();
    assert_eq!(sort(texts), expected);
}

#[test]
fn a_name_is_eight_bytes_optional() {
    assert_eq!(std::mem::size_of::<Name>(), 8);
    assert_eq!(std::mem::size_of::<Option<Name>>(), 8);
}

#[test]
fn a_base_keeps_its_index() {
    for top in 0..255u32 {
        for rest in [0, 1, 0xFFFF, 0x1_0000, 0xFF_FFFF] {
            let raw = top * 0x100_0000 + rest;
            assert_eq!(BaseId::new(raw).raw(), raw);
        }
    }
    assert!(BaseId::new(0xFFFF) < BaseId::new(0x1_0000));
    assert_eq!(BaseId::new(0xFEFF_FFFF).index(), 0xFEFF_FFFF);
}
