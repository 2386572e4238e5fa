use caelib::rule::next;

/// Every rule byte and every neighborhood: the next cell is exactly the
/// bit of the rule byte selected by the neighborhood index.
#[test]
fn rule_exhaustive() {
    for r in 0u32..256 {
        for l in 0u32..2 {
            for c in 0u32..2 {
                for rt in 0u32..2 {
                    let expected = (r >> (l * 4 + c * 2 + rt)) & 1;
                    assert_eq!(next(r as u8, l, c, rt), expected);
                }
            }
        }
    }
    // 2048 cases in all.
}

#[test]
fn rule_ignores_high_bits_of_cell_words() {
    // Only the low bit of each neighbor word selects the neighborhood.
    assert_eq!(next(30, 0x10, 0x20, 0x41), next(30, 0, 0, 1));
    assert_eq!(next(90, 0xFFFF_FFFF, 0, 0), next(90, 1, 0, 0));
}

#[test]
fn rule_30_neighborhoods() {
    // Rule 30 = 0b0001_1110.
    assert_eq!(next(30, 1, 1, 1), 0);
    assert_eq!(next(30, 1, 1, 0), 0);
    assert_eq!(next(30, 1, 0, 1), 0);
    assert_eq!(next(30, 1, 0, 0), 1);
    assert_eq!(next(30, 0, 1, 1), 1);
    assert_eq!(next(30, 0, 1, 0), 1);
    assert_eq!(next(30, 0, 0, 1), 1);
    assert_eq!(next(30, 0, 0, 0), 0);
}
