use block_indexer::{render_ud, u64_decimal, Atom};

#[test]
fn two_to_the_seventy_is_exact() {
    let mut bytes = vec![0u8; 8];
    bytes.push(0x40);
    let atom = Atom::Indirect(bytes);
    assert_eq!(atom.to_decimal(), "1180591620717411303424");
}

#[test]
fn one_past_the_word_is_exact() {
    let mut bytes = vec![0u8; 8];
    bytes.push(1);
    assert_eq!(Atom::Indirect(bytes).to_decimal(), "18446744073709551616");
}

#[test]
fn direct_values_render_in_decimal() {
    assert_eq!(Atom::Direct(0).to_decimal(), "0");
    assert_eq!(Atom::Direct(100).to_decimal(), "100");
    assert_eq!(Atom::Direct(u64::MAX).to_decimal(), "18446744073709551615");
    assert_eq!(u64_decimal(1_700_000_000), "1700000000");
}

#[test]
fn indirect_values_with_high_zero_bytes() {
    assert_eq!(Atom::Indirect(vec![]).to_decimal(), "0");
    assert_eq!(Atom::Indirect(vec![0, 0, 0]).to_decimal(), "0");
    assert_eq!(Atom::Indirect(vec![0x10, 0x27, 0, 0]).to_decimal(), "10000");
    assert_eq!(Atom::Indirect(vec![255; 8]).to_decimal(), "18446744073709551615");
}

#[test]
fn numeric_field_that_is_no_atom() {
    assert_eq!(render_ud(None, "[1 2]"), "invalid (not atom): [1 2]");
    assert_eq!(render_ud(Some(Atom::Direct(42)), "42"), "42");
}
