use kageb::{
    content_root, CommitmentDomain, CommitmentError, DirectOrder, PublicTrace, Residual, Side,
};
use sha2::{Digest, Sha256};

fn framed(bytes: &[u8]) -> Vec<u8> {
    let mut out = (bytes.len() as u64).to_le_bytes().to_vec();
    out.extend_from_slice(bytes);
    out
}

#[test]
fn direct_trace_names_wallets_while_pooled_trace_names_only_the_aggregate() {
    let wallets = [[11_u8; 32], [12_u8; 32], [13_u8; 32], [14_u8; 32]];
    let orders = vec![
        DirectOrder::one_lot(wallets[0], Side::Buy),
        DirectOrder::one_lot(wallets[1], Side::Sell),
        DirectOrder::one_lot(wallets[2], Side::Buy),
        DirectOrder::one_lot(wallets[3], Side::Buy),
    ];
    let direct = PublicTrace::direct(&orders);
    let pooled = PublicTrace::pooled(
        [9; 32],
        [8; 32],
        Residual::Buy { lots: 2 },
        [6; 32],
        [5; 32],
    );

    assert_eq!(direct.visible_participant_wallets(), wallets);
    assert_eq!(direct.individual_order_count(), 4);
    assert_eq!(direct.aggregate_count(), 0);
    assert!(pooled.visible_participant_wallets().is_empty());
    assert_eq!(pooled.individual_order_count(), 0);
    assert_eq!(pooled.aggregate_count(), 1);
    assert!(pooled.render().contains("pool aggregate: BUY 2 lots"));
    assert!(!pooled.render().contains("participant"));
}

#[test]
fn content_roots_are_order_independent_and_domain_separated() {
    let forward = content_root(CommitmentDomain::MemberSet, &[&b"alice"[..], &b"bob"[..]])
        .expect("unique members");
    let reverse = content_root(CommitmentDomain::MemberSet, &[&b"bob"[..], &b"alice"[..]])
        .expect("unique members");
    let other_domain = content_root(CommitmentDomain::BalanceSet, &[&b"alice"[..], &b"bob"[..]])
        .expect("unique balances");

    assert_eq!(forward, reverse);
    assert_ne!(forward, other_domain);
    assert_ne!(
        forward,
        content_root(CommitmentDomain::MemberSet, &[&b"alicebob"[..]]).expect("unique member")
    );
    assert_eq!(
        content_root(CommitmentDomain::MemberSet, &[&b"alice"[..], &b"alice"[..]]),
        Err(CommitmentError::DuplicateLeaf)
    );
}

#[test]
fn a_trace_prints_one_line_for_each_action() {
    let direct = PublicTrace::direct(&[
        DirectOrder::one_lot([11; 32], Side::Buy),
        DirectOrder::one_lot([12; 32], Side::Sell),
    ]);
    assert_eq!(
        direct.render(),
        "wallet 0b0b0b0b: BUY 1 lots\nwallet 0c0c0c0c: SELL 1 lots"
    );
    let pooled = PublicTrace::pooled([9; 32], [8; 32], Residual::Balanced, [6; 32], [5; 32]);
    assert_eq!(
        pooled.render(),
        "pool aggregate: NO VENUE LEG | pool 09090909 | venue 08080808 | member root 06060606 | \
         result commitment 05050505 | keyper approvals 0"
    );
    let sold = PublicTrace::pooled(
        [9; 32],
        [8; 32],
        Residual::Sell { lots: 12 },
        [6; 32],
        [5; 32],
    );
    assert!(sold.render().starts_with("pool aggregate: SELL 12 lots | "));
}

#[test]
fn a_root_is_the_digest_of_its_framed_sorted_leaves() {
    let domain = b"KAGEB_RESULT_SET_V1\0";
    let mut leaf = b"KAGEB_LEAF_V1\0".to_vec();
    leaf.extend(framed(domain));
    leaf.extend(framed(b"only"));
    let mut root = b"KAGEB_ROOT_V1\0".to_vec();
    root.extend(framed(domain));
    root.extend(1_u64.to_le_bytes());
    root.extend(Sha256::digest(&leaf));
    let expected: [u8; 32] = Sha256::digest(&root).into();
    assert_eq!(
        content_root(CommitmentDomain::ResultSet, &[&b"only"[..]]),
        Ok(expected)
    );
}

#[test]
fn different_sets_of_leaves_have_different_roots() {
    let root = |leaves: &[&[u8]]| content_root(CommitmentDomain::ResultSet, leaves).expect("root");
    let sets: [&[&[u8]]; 5] = [
        &[],
        &[b"alice"],
        &[b"alice", b"bob"],
        &[b"alice", b"bob", b"carol"],
        &[b"alic", b"ebob"],
    ];
    for (i, left) in sets.iter().enumerate() {
        for right in &sets[i + 1..] {
            assert_ne!(root(left), root(right));
        }
    }
}
