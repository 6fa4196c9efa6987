use kageb::trace_fixture;

#[test]
fn trace_command_explains_the_public_difference_without_a_privacy_score() {
    let stdout = trace_fixture().expect("trace");
    assert!(stdout.contains("DIRECT: 4 wallet-linked orders visible"));
    assert!(stdout.contains("KAGEB: 0 individual orders visible"));
    assert!(stdout.contains("pool aggregate: BUY 2 lots"));
    assert!(stdout.contains("no decoy trades"));
    assert!(!stdout.contains('%'));
}

#[test]
fn trace_prints_the_fixed_comparison() {
    assert_eq!(
        trace_fixture().expect("trace"),
        "DIRECT: 4 wallet-linked orders visible\n\
         wallet 0b0b0b0b: BUY 1 lots\n\
         wallet 0c0c0c0c: SELL 1 lots\n\
         wallet 0d0d0d0d: BUY 1 lots\n\
         wallet 0e0e0e0e: BUY 1 lots\n\
         \n\
         KAGEB: 0 individual orders visible\n\
         pool aggregate: BUY 2 lots | pool 09090909 | venue 08080808 | member root 171a36c7 | \
         result commitment 60432e36 | keyper approvals 0\n\
         \n\
         4 real orders, one pooled result, no decoy trades.\n"
    );
}
