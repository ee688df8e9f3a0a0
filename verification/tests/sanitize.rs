use proxydeck::sanitize::sanitize;
use proxydeck::sanitize::sanitize_with_prefix;

#[test]
fn plain_name() {
    assert_eq!(sanitize("Lightning Bolt"), "lightning_bolt.png");
}

#[test]
fn punctuation_collapses() {
    assert_eq!(sanitize("Sol Ring!!"), "sol_ring.png");
}

#[test]
fn double_space_collapses() {
    assert_eq!(sanitize("Sol  Ring"), "sol_ring.png");
}

#[test]
fn hyphen_collapses() {
    assert_eq!(sanitize("sol-ring"), "sol_ring.png");
}

#[test]
fn sanitizing_a_stem_is_a_no_op() {
    // The stem of "Sol Ring!!" is "sol_ring"; running it through the
    // sanitizer again yields the very same file name.
    assert_eq!(sanitize("sol_ring"), "sol_ring.png");
    assert_eq!(sanitize("lightning_bolt"), "lightning_bolt.png");
}

#[test]
fn upper_case_is_lowered() {
    assert_eq!(sanitize("ABC"), "abc.png");
    assert_eq!(sanitize("SWAMP"), "swamp.png");
}

#[test]
fn digits_become_underscores() {
    assert_eq!(sanitize("Borrowing 100,000 Arrows"), "borrowing_arrows.png");
}

#[test]
fn prefix_is_joined_with_an_underscore() {
    assert_eq!(sanitize_with_prefix("001", "Sol Ring"), "001_sol_ring.png");
    assert_eq!(sanitize_with_prefix("003_01", "Fable of the Mirror-Breaker"), "003_01_fable_of_the_mirror_breaker.png");
}

#[test]
fn leading_runs_keep_their_underscore() {
    // Only the trailing underscore is dropped; a leading run still leaves
    // its single mark, as the replace-each-run rule says.
    assert_eq!(sanitize("!!Sol Ring"), "_sol_ring.png");
    assert_eq!(sanitize("'Til Death Do Us Part"), "_til_death_do_us_part.png");
}

#[test]
fn empty_name_still_gets_the_extension() {
    assert_eq!(sanitize(""), ".png");
    assert_eq!(sanitize("!!!"), ".png");
}
