use std::cmp::Ordering;
use vidnux::display::short;
use vidnux::natural::{natural_cmp, natural_order};

#[test]
fn numbers_sort_by_value_not_by_character() {
    assert_eq!(natural_cmp("clip2.mp4", "clip10.mp4"), Ordering::Less);
    assert_eq!(natural_cmp("Adam-Kun-9", "Adam-Kun-10"), Ordering::Less);
    assert_eq!(natural_cmp("b.mp4", "a.mp4"), Ordering::Greater);
    assert_eq!(natural_cmp("same", "same"), Ordering::Equal);
}

#[test]
fn closed_combo_boxes_drop_the_explanation_after_the_dash() {
    assert_eq!(
        short("DNxHR / MOV  —  DaVinci Resolve ready"),
        "DNxHR / MOV"
    );
    assert_eq!(short("AV1 / MKV  —  small, keeps every track"), "AV1 / MKV");
    // Labels with no dash are left exactly as they are.
    assert_eq!(short("High"), "High");
    assert_eq!(short(""), "");
}

#[test]
fn natural_order_edges() {
    assert_eq!(natural_order("", ""), 0);
    assert_eq!(natural_order("", "a"), -1);
    assert_eq!(natural_order("a", ""), 1);
    assert_eq!(natural_order("take3_clip2", "take3_clip10"), -1);
    assert_eq!(natural_order("clip007", "clip7"), 0);
    assert_eq!(natural_order("x10y", "x10z"), -1);
    // A digit sorts before a letter, character by character.
    assert_eq!(natural_order("1a", "a1"), -1);
    // Runs too long for 128 bits read as zero.
    assert_eq!(natural_order("n999999999999999999999999999999999999999", "n1"), -1);
}

#[test]
fn swapping_the_names_reverses_the_order() {
    let names = ["clip2", "clip10", "Clip1", "a", "", "a1b2", "a1b10"];
    for a in names {
        for b in names {
            assert_eq!(natural_order(a, b), -natural_order(b, a), "{a} {b}");
        }
        assert_eq!(natural_order(a, a), 0);
    }
}

#[test]
fn short_trims_around_the_format() {
    assert_eq!(short("  H.264 / MP4  —  plays everywhere"), "H.264 / MP4");
    assert_eq!(short("one — two"), "one — two");
}

#[test]
fn the_order_is_consistent_across_three_names() {
    let names = ["clip1", "clip2", "clip10", "Clip2", "clip2b", "a", "", "9", "10", "x7y", "x07y"];
    for a in names {
        for b in names {
            for c in names {
                if natural_order(a, b) <= 0 && natural_order(b, c) <= 0 {
                    assert!(natural_order(a, c) <= 0, "{a} {b} {c}");
                }
            }
        }
    }
}
