use print_catalog::{aligned_offset, alignment_factors, parse_alignment, AlignFactor};
use print_catalog::alignment::align_within;

const NAMED: [(&str, AlignFactor, AlignFactor); 9] = [
    ("top-left", AlignFactor::Start, AlignFactor::Start),
    ("top-center", AlignFactor::Center, AlignFactor::Start),
    ("top-right", AlignFactor::End, AlignFactor::Start),
    ("center-left", AlignFactor::Start, AlignFactor::Center),
    ("center", AlignFactor::Center, AlignFactor::Center),
    ("center-right", AlignFactor::End, AlignFactor::Center),
    ("bottom-left", AlignFactor::Start, AlignFactor::End),
    ("bottom-center", AlignFactor::Center, AlignFactor::End),
    ("bottom-right", AlignFactor::End, AlignFactor::End),
];

#[test]
fn parse_alignment_maps_the_nine_positions() {
    for (name, x, y) in NAMED {
        assert_eq!(parse_alignment(name), (x, y), "{}", name);
    }
}

#[test]
fn parse_alignment_defaults_to_center() {
    assert_eq!(parse_alignment("unexpected"), (AlignFactor::Center, AlignFactor::Center));
    assert_eq!(parse_alignment(""), (AlignFactor::Center, AlignFactor::Center));
    assert_eq!(parse_alignment("Top-Left"), (AlignFactor::Center, AlignFactor::Center));
    assert_eq!(parse_alignment("middle-left"), (AlignFactor::Center, AlignFactor::Center));
}

#[test]
fn named_alignments_agree_between_engine_and_printer() {
    for (name, _, _) in NAMED {
        assert_eq!(parse_alignment(name), alignment_factors(name), "{}", name);
    }
}

#[test]
fn alignment_factors_read_suffix_and_prefix() {
    assert_eq!(alignment_factors("middle-left"), (AlignFactor::Start, AlignFactor::Center));
    assert_eq!(alignment_factors("topright"), (AlignFactor::End, AlignFactor::Start));
    assert_eq!(alignment_factors("bottom"), (AlignFactor::Center, AlignFactor::End));
    assert_eq!(alignment_factors("unexpected"), (AlignFactor::Center, AlignFactor::Center));
    assert_eq!(alignment_factors("été-left"), (AlignFactor::Start, AlignFactor::Center));
}

#[test]
fn aligned_offset_scales_free_space() {
    assert_eq!(aligned_offset(50, AlignFactor::Start), 0);
    assert_eq!(aligned_offset(50, AlignFactor::Center), 25);
    assert_eq!(aligned_offset(50, AlignFactor::End), 50);
    assert_eq!(aligned_offset(5, AlignFactor::Center), 3);
    assert_eq!(aligned_offset(-4, AlignFactor::End), 0);
    assert_eq!(aligned_offset(-4, AlignFactor::Center), 0);
    assert_eq!(aligned_offset(i32::MAX, AlignFactor::Center), 1 << 30);
}

#[test]
fn align_within_stays_inside_free_space() {
    assert_eq!(align_within(u32::MAX, AlignFactor::End), u32::MAX);
    assert_eq!(align_within(u32::MAX, AlignFactor::Center), 1 << 31);
    assert_eq!(align_within(7, AlignFactor::Center), 4);
    assert_eq!(align_within(7, AlignFactor::Start), 0);
}
