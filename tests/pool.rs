use solana_sdk::pubkey::Pubkey;
use solana_sdk::signer::Signer;
use vanity_pool::address::{
    chars_of, derive_address, derive_text, is_valid_seed, key_text, text_ends_with,
    DerivationError, PublicKey,
};
use vanity_pool::search::SearchBatch;
use vanity_pool::service::{refill_plan, RefillAction, VanityService};

const SEED: &str = "abcDEF0123456789abcDEF0123456789";

fn token_program_id() -> PublicKey {
    VanityService::new(String::new(), 0).namespace_key()
}

fn authority() -> PublicKey {
    PublicKey { bytes: [7u8; 32] }
}

fn filled(suffix: &str, capacity: usize) -> VanityService {
    let mut svc = VanityService::new(suffix.to_string(), capacity);
    if let RefillAction::Search { needed } = svc.next_refill() {
        let mut batch = svc.start_batch(needed, 10_000_000);
        while !batch.is_done() {
            batch.run(10_000);
        }
        let found = batch.take_found();
        svc.merge_found(found);
    }
    svc
}

#[test]
fn token_program_text() {
    assert_eq!(token_program_id().bytes, spl_token::id().to_bytes());
    assert_eq!(key_text(&token_program_id()), "TokenkegQfeZyiNwAJbNbGKPFXCWuBvf9Ss623VQ5DA");
}

#[test]
fn derive_matches_create_with_seed() {
    let base = authority();
    let ns = token_program_id();
    let k = derive_address(&base, SEED, &ns).unwrap();
    let expected = Pubkey::create_with_seed(
        &Pubkey::new_from_array(base.bytes),
        SEED,
        &Pubkey::new_from_array(ns.bytes),
    )
    .unwrap();
    assert_eq!(k.bytes, expected.to_bytes());
    assert_ne!(k.bytes, base.bytes);
    let text = derive_text(&base, SEED, &ns).unwrap();
    assert_eq!(text, expected.to_string());
}

#[test]
fn derive_is_deterministic() {
    let base = authority();
    let ns = token_program_id();
    assert_eq!(derive_address(&base, SEED, &ns), derive_address(&base, SEED, &ns));
    assert_eq!(derive_text(&base, SEED, &ns), derive_text(&base, SEED, &ns));
}

#[test]
fn derive_refuses_bad_seeds() {
    let base = authority();
    let ns = token_program_id();
    assert_eq!(derive_address(&base, "", &ns), Err(DerivationError::InvalidSeed));
    assert_eq!(derive_address(&base, "abc", &ns), Err(DerivationError::InvalidSeed));
    assert_eq!(derive_address(&base, "abcDEF0123456789abcDEF012345678-", &ns), Err(DerivationError::InvalidSeed));
    assert_eq!(derive_address(&base, "abcDEF0123456789abcDEF0123456789x", &ns), Err(DerivationError::InvalidSeed));
}

#[test]
fn derive_refuses_marker_owner() {
    let mut bytes = [1u8; 32];
    bytes[11..].copy_from_slice(b"ProgramDerivedAddress");
    let owner = PublicKey { bytes };
    assert_eq!(derive_address(&authority(), SEED, &owner), Err(DerivationError::IllegalOwner));
    assert_eq!(derive_text(&authority(), SEED, &owner), Err(DerivationError::IllegalOwner));
}

#[test]
fn seed_and_suffix_predicates() {
    assert!(is_valid_seed(SEED));
    assert!(!is_valid_seed("short"));
    assert!(!is_valid_seed("abcDEF0123456789abcDEF01234567é"));
    assert!(text_ends_with("Tokenpump", "pump"));
    assert!(text_ends_with("pump", "pump"));
    assert!(text_ends_with("abc", ""));
    assert!(!text_ends_with("ump", "pump"));
    assert!(!text_ends_with("Tokenpumq", "pump"));
    assert_eq!(chars_of("aé1"), vec!['a', 'é', '1']);
}

#[test]
fn refill_plan_values() {
    assert_eq!(refill_plan(0, 5), RefillAction::Search { needed: 5 });
    assert_eq!(refill_plan(3, 5), RefillAction::Search { needed: 2 });
    assert_eq!(refill_plan(5, 5), RefillAction::Idle);
    assert_eq!(refill_plan(7, 5), RefillAction::Idle);
    assert_eq!(refill_plan(0, 0), RefillAction::Idle);
}

#[test]
fn try_seed_counts_and_keeps_matches() {
    let base = authority();
    let ns = token_program_id();
    let text = derive_text(&base, SEED, &ns).unwrap();
    let tail: String = text.chars().rev().take(2).collect::<Vec<char>>().into_iter().rev().collect();
    let mut batch = SearchBatch::new(base, ns, tail, 1, 100);
    batch.try_seed("bad".to_string());
    assert_eq!(batch.found_count(), 0);
    assert!(!batch.is_done());
    batch.try_seed(SEED.to_string());
    assert_eq!(batch.found_count(), 1);
    assert!(batch.is_done());
    let found = batch.take_found();
    assert_eq!(found, vec![(SEED.to_string(), text)]);
}

#[test]
fn batch_stops_at_attempt_ceiling() {
    let mut batch = SearchBatch::new(authority(), token_program_id(), "zzzzzzzzzz".to_string(), 3, 50);
    batch.run(1_000);
    assert!(batch.is_done());
    assert_eq!(batch.found_count(), 0);
}

#[test]
fn closed_batch_makes_no_attempt() {
    let mut batch = SearchBatch::new(authority(), token_program_id(), String::new(), 3, 50);
    assert!(batch.take_found().is_empty());
    assert!(batch.is_done());
    batch.attempt();
    assert_eq!(batch.found_count(), 0);
}

#[test]
fn suffix_ab_capacity_five() {
    let svc = filled("ab", 5);
    let mut svc = svc;
    let size = svc.pool_size();
    assert!(size <= 5);
    assert_eq!(size, 5);
    assert_eq!(svc.next_refill(), RefillAction::Idle);
    let mut last = size;
    while let Some((seed, address)) = svc.get_next_vanity() {
        assert!(address.ends_with("ab"));
        assert!(is_valid_seed(&seed));
        let again = derive_text(&svc.authority_public_key(), &seed, &token_program_id()).unwrap();
        assert_eq!(again, address);
        assert!(svc.accepts_pair(&seed, &address));
        assert_eq!(svc.pool_size(), last - 1);
        last = svc.pool_size();
    }
    assert_eq!(svc.pool_size(), 0);
}

#[test]
fn zero_capacity_never_searches() {
    let mut svc = VanityService::new("ab".to_string(), 0);
    assert_eq!(svc.next_refill(), RefillAction::Idle);
    assert_eq!(svc.get_next_vanity(), None);
    assert_eq!(svc.pool_size(), 0);
}

#[test]
fn one_entry_two_takes() {
    let mut svc = filled("a", 1);
    assert_eq!(svc.pool_size(), 1);
    let first = svc.get_next_vanity();
    let second = svc.get_next_vanity();
    assert!(first.is_some());
    assert_eq!(second, None);
}

#[test]
fn take_all_delivers_each_once() {
    let mut svc = filled("b", 4);
    let n = svc.pool_size();
    let mut seen: Vec<(String, String)> = Vec::new();
    for _ in 0..n {
        let p = svc.get_next_vanity().unwrap();
        assert!(!seen.contains(&p));
        seen.push(p);
    }
    assert_eq!(svc.get_next_vanity(), None);
}

#[test]
fn merge_drops_pairs_the_pool_does_not_accept() {
    let mut svc = VanityService::new("b".to_string(), 3);
    let auth = svc.authority_public_key();
    let text = derive_text(&auth, SEED, &token_program_id()).unwrap();
    svc.merge_found(vec![
        (SEED.to_string(), "forged-addressb".to_string()),
        ("short".to_string(), "xb".to_string()),
        (SEED.to_string(), text.clone()),
    ]);
    let expected = if text.ends_with('b') { 1 } else { 0 };
    assert_eq!(svc.pool_size(), expected);
}

#[test]
fn authority_text_matches_keypair() {

    let svc = VanityService::new("pump".to_string(), 1);
    let pk = svc.get_authority_keypair().pubkey();
    assert_eq!(svc.authority_public_key().bytes, pk.to_bytes());
    assert_eq!(svc.authority_text(), pk.to_string());
    assert_eq!(svc.capacity_target(), 1);
}

#[test]
fn empty_suffix_every_attempt_matches() {
    let mut batch = SearchBatch::new(authority(), token_program_id(), String::new(), 10, 1_000);
    batch.run(3);
    assert_eq!(batch.found_count(), 3);
    batch.attempt();
    assert_eq!(batch.found_count(), 4);
    let found = batch.take_found();
    assert_eq!(found.len(), 4);
    for (seed, address) in found {
        assert!(is_valid_seed(&seed));
        assert_eq!(derive_text(&authority(), &seed, &token_program_id()).unwrap(), address);
    }
}

#[test]
fn authority_keypair_is_fixed() {
    let mut svc = filled("a", 2);
    let before = svc.get_authority_keypair().pubkey();
    let _ = svc.get_next_vanity();
    svc.merge_found(Vec::new());
    assert_eq!(svc.get_authority_keypair().pubkey(), before);
    assert_eq!(svc.authority_public_key().bytes, before.to_bytes());
}
