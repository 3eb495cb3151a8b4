use hyprlauncher::heatmap::Heatmap;
use hyprlauncher::heatmap_text::{apply_save, load_heatmap, render_heatmap, u32_to_string};

#[test]
fn empty_store_renders_header_only() {
    let h = Heatmap::new();
    assert_eq!(render_heatmap(&h), "[map]\n");
}

#[test]
fn render_exact_text() {
    let mut h = Heatmap::new();
    h.set("alpha", 3);
    assert_eq!(render_heatmap(&h), "[map]\n\"alpha\" = 3\n");
}

#[test]
fn render_two_entries_in_order() {
    let mut h = Heatmap::new();
    h.set("alpha", 3);
    h.set("beta", 7);
    assert_eq!(render_heatmap(&h), "[map]\n\"alpha\" = 3\n\"beta\" = 7\n");
}

#[test]
fn set_overwrites_in_place() {
    let mut h = Heatmap::new();
    h.set("alpha", 3);
    h.set("alpha", 9);
    assert_eq!(h.len(), 1);
    assert_eq!(h.get("alpha"), 9);
    assert_eq!(render_heatmap(&h), "[map]\n\"alpha\" = 9\n");
}

#[test]
fn get_of_absent_name_is_zero() {
    let h = Heatmap::new();
    assert_eq!(h.get("nope"), 0);
}

#[test]
fn save_then_load_round_trip() {
    let text = apply_save("", "alpha", 3);
    let h = load_heatmap(&text);
    assert_eq!(h.get("alpha"), 3);
}

#[test]
fn two_saves_distinct_names_both_present() {
    let t1 = apply_save("", "alpha", 1);
    let t2 = apply_save(&t1, "beta", 2);
    let h = load_heatmap(&t2);
    assert_eq!(h.get("alpha"), 1);
    assert_eq!(h.get("beta"), 2);
    assert_eq!(h.len(), 2);
}

#[test]
fn save_rereads_and_overwrites_single_pair() {
    let t1 = apply_save("", "alpha", 1);
    let t2 = apply_save(&t1, "alpha", 2);
    let h = load_heatmap(&t2);
    assert_eq!(h.len(), 1);
    assert_eq!(h.get("alpha"), 2);
}

#[test]
fn load_of_empty_text_is_empty() {
    let h = load_heatmap("");
    assert_eq!(h.len(), 0);
}

#[test]
fn load_of_garbage_is_empty() {
    assert_eq!(load_heatmap("not a heatmap at all").len(), 0);
    assert_eq!(load_heatmap("[map]\nbad line\n").len(), 0);
    assert_eq!(load_heatmap("[map]\n\"unclosed = 3\n").len(), 0);
}

#[test]
fn load_rejects_count_overflow() {
    // one above u32::MAX
    assert_eq!(load_heatmap("[map]\n\"a\" = 4294967296\n").len(), 0);
    // exactly u32::MAX is fine
    let h = load_heatmap("[map]\n\"a\" = 4294967295\n");
    assert_eq!(h.get("a"), u32::MAX);
}

#[test]
fn load_rejects_duplicate_names() {
    assert_eq!(load_heatmap("[map]\n\"a\" = 1\n\"a\" = 2\n").len(), 0);
}

#[test]
fn names_with_spaces_round_trip() {
    let text = apply_save("", "Firefox Web Browser", 11);
    let h = load_heatmap(&text);
    assert_eq!(h.get("Firefox Web Browser"), 11);
}

#[test]
fn names_with_quotes_and_backslashes_round_trip() {
    let text = apply_save("", "we\"ird\\name", 2);
    assert_eq!(text, "[map]\n\"we\\\"ird\\\\name\" = 2\n");
    let h = load_heatmap(&text);
    assert_eq!(h.get("we\"ird\\name"), 2);
    // and the escaped form is what the toml crate would read back too
    let table: toml::Table = toml::from_str(&text).expect("valid toml");
    let map = table["map"].as_table().unwrap();
    assert_eq!(map["we\"ird\\name"].as_integer(), Some(2));
}

#[test]
fn decimal_rendering_exact() {
    assert_eq!(u32_to_string(0), "0");
    assert_eq!(u32_to_string(42), "42");
    assert_eq!(u32_to_string(4294967295), "4294967295");
}

#[test]
fn rendered_store_is_valid_toml() {
    let mut h = Heatmap::new();
    h.set("Firefox Web Browser", 11);
    h.set("vim", 3);
    let text = render_heatmap(&h);
    let table: toml::Table = toml::from_str(&text).expect("rendered text must parse as toml");
    let map = table["map"].as_table().expect("a [map] table");
    assert_eq!(map["Firefox Web Browser"].as_integer(), Some(11));
    assert_eq!(map["vim"].as_integer(), Some(3));
}
