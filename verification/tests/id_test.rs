use recipes::error::Error;
use recipes::id::to_checked_id;
use recipes::id::to_id_string;

#[test]
fn id_test() {
    assert_eq!(to_id_string("Crêpe"), "crepe");
    assert_eq!(to_id_string("Grünkern"), "gruenkern");
    assert_eq!(to_id_string("Nasi Goreng"), "nasi-goreng");
}

#[test]
fn umlauts_and_sharp_s() {
    assert_eq!(to_id_string("Großer Käse"), "grosser-kaese");
    assert_eq!(to_id_string("ÄÖÜ"), "aeoeue");
}

#[test]
fn collapses_spacing_and_hyphens() {
    assert_eq!(to_id_string("a - b"), "a-b");
    assert_eq!(to_id_string("  leading and   trailing  "), "-leading-and-trailing-");
    // Tab and newline sit below the printable range, so they are dropped
    // before collapsing rather than turned into hyphens.
    assert_eq!(to_id_string("Tabs\tand\nnewlines"), "tabsandnewlines");
}

#[test]
fn drops_punctuation_and_marks() {
    assert_eq!(to_id_string("Sauce (Béarnaise)!"), "sauce-bearnaise");
    assert_eq!(to_id_string("50% Schokolade"), "50-schokolade");
}

#[test]
fn idempotent_on_examples() {
    for title in ["Crêpe", "Grünkern", "Nasi Goreng", "Großer Käse", "a - b", "  x  "] {
        let once = to_id_string(title);
        assert_eq!(to_id_string(&once), once);
    }
}

#[test]
fn empty_id_is_rejected() {
    assert_eq!(to_id_string("!!!"), "");
    assert_eq!(to_checked_id("!!!"), Err(Error::EmptyId));
    assert_eq!(to_checked_id("Crêpe"), Ok("crepe".to_string()));
}
