use layer_registry::{Layer, VoteError, Welcome};

fn registry_of(uris: &[&str]) -> Welcome {
    let mut registry = Welcome::default();
    for uri in uris {
        registry.mint_layer("bob_near".to_string(), uri.to_string());
    }
    registry
}

#[test]
fn mint_layer() {
    let mut contract = Welcome::default();
    assert_eq!(0, contract.get_layers_length());
    contract.mint_layer("bob_near".to_string(), "test".to_string());
    assert_eq!(1, contract.get_layers_length());
}

#[test]
fn default_registry_is_empty() {
    let registry = Welcome::default();
    assert_eq!(registry.get_layers_length(), 0);
    assert!(registry.get_layers().is_empty());
    assert!(registry.layers.is_empty());
}

#[test]
fn minted_record_has_owner_uri_and_no_votes() {
    let mut registry = Welcome::default();
    registry.mint_layer("alice_near".to_string(), "ipfs://a".to_string());
    let layers = registry.get_layers();
    assert_eq!(layers.len(), 1);
    assert_eq!(layers[0].owner_id, "alice_near");
    assert_eq!(layers[0].token_uri, "ipfs://a");
    assert_eq!(layers[0].upvotes, 0);
    assert_eq!(layers[0].downvotes, 0);
}

#[test]
fn mints_append_in_call_order() {
    let uris = ["ipfs://a", "ipfs://b", "", "ipfs://a", "https://example.org/4"];
    let owners = ["alice_near", "bob_near", "carol_near", "alice_near", "bob_near"];
    let mut registry = Welcome::default();
    for k in 0..uris.len() {
        assert_eq!(registry.get_layers_length(), k);
        registry.mint_layer(owners[k].to_string(), uris[k].to_string());
        assert_eq!(registry.get_layers_length(), k + 1);
        let layers = registry.get_layers();
        for i in 0..=k {
            assert_eq!(layers[i].token_uri, uris[i]);
            assert_eq!(layers[i].owner_id, owners[i]);
            assert_eq!(layers[i].upvotes, 0);
            assert_eq!(layers[i].downvotes, 0);
        }
    }
}

#[test]
fn mint_accepts_the_empty_string() {
    let mut registry = Welcome::default();
    registry.mint_layer(String::new(), String::new());
    assert_eq!(registry.get_layers_length(), 1);
    assert_eq!(registry.get_layers()[0].token_uri, "");
    assert_eq!(registry.get_layers()[0].owner_id, "");
}

#[test]
fn mint_accepts_any_string() {
    let long = "x".repeat(100_000);
    let odd = "ipfs://\u{0}\n \u{1F600} \u{FFFD}\u{10FFFF}";
    let mut registry = Welcome::default();
    registry.mint_layer("bob_near".to_string(), long.clone());
    registry.mint_layer(odd.to_string(), odd.to_string());
    let layers = registry.get_layers();
    assert_eq!(layers.len(), 2);
    assert_eq!(layers[0].token_uri, long);
    assert_eq!(layers[1].token_uri, odd);
    assert_eq!(layers[1].owner_id, odd);
}

#[test]
fn mint_does_not_check_uniqueness() {
    let registry = registry_of(&["ipfs://a", "ipfs://a"]);
    assert_eq!(registry.get_layers_length(), 2);
    assert_eq!(registry.get_layers()[0].token_uri, registry.get_layers()[1].token_uri);
}

#[test]
fn upvote_raises_only_that_counter() {
    let mut registry = registry_of(&["ipfs://a", "ipfs://b", "ipfs://c"]);
    assert_eq!(registry.increment_upvotes(1), Ok(()));
    let layers = registry.get_layers();
    assert_eq!(layers.len(), 3);
    assert_eq!(layers[1].upvotes, 1);
    assert_eq!(layers[1].downvotes, 0);
    assert_eq!(layers[1].owner_id, "bob_near");
    assert_eq!(layers[1].token_uri, "ipfs://b");
    for i in [0, 2] {
        assert_eq!(layers[i].upvotes, 0);
        assert_eq!(layers[i].downvotes, 0);
        assert_eq!(layers[i].owner_id, "bob_near");
    }
    assert_eq!(layers[0].token_uri, "ipfs://a");
    assert_eq!(layers[2].token_uri, "ipfs://c");
}

#[test]
fn downvote_raises_only_that_counter() {
    let mut registry = registry_of(&["ipfs://a", "ipfs://b"]);
    assert_eq!(registry.increment_downvotes(0), Ok(()));
    let layers = registry.get_layers();
    assert_eq!(layers.len(), 2);
    assert_eq!(layers[0].downvotes, 1);
    assert_eq!(layers[0].upvotes, 0);
    assert_eq!(layers[0].owner_id, "bob_near");
    assert_eq!(layers[0].token_uri, "ipfs://a");
    assert_eq!(layers[1].downvotes, 0);
    assert_eq!(layers[1].upvotes, 0);
    assert_eq!(layers[1].token_uri, "ipfs://b");
}

#[test]
fn votes_accumulate_independently() {
    let mut registry = registry_of(&["ipfs://a"]);
    for _ in 0..5 {
        assert_eq!(registry.increment_upvotes(0), Ok(()));
    }
    for _ in 0..3 {
        assert_eq!(registry.increment_downvotes(0), Ok(()));
    }
    assert_eq!(registry.get_layers()[0].upvotes, 5);
    assert_eq!(registry.get_layers()[0].downvotes, 3);
}

#[test]
fn vote_past_the_end_is_out_of_range() {
    let mut registry = registry_of(&["ipfs://a", "ipfs://b"]);
    registry.increment_upvotes(0).unwrap();
    let before = registry.get_layers();
    for index in [2, 3, 5, usize::MAX] {
        assert_eq!(registry.increment_upvotes(index), Err(VoteError::IndexOutOfRange));
        assert_eq!(registry.increment_downvotes(index), Err(VoteError::IndexOutOfRange));
    }
    assert_same_layers(&registry.get_layers(), &before);
}

#[test]
fn vote_on_empty_registry_is_out_of_range() {
    let mut registry = Welcome::default();
    assert_eq!(registry.increment_upvotes(0), Err(VoteError::IndexOutOfRange));
    assert_eq!(registry.increment_downvotes(0), Err(VoteError::IndexOutOfRange));
    assert_eq!(registry.get_layers_length(), 0);
}

#[test]
fn upvote_at_maximum_overflows_and_keeps_state() {
    let mut registry = registry_of(&["ipfs://a", "ipfs://b"]);
    for n in 1..=127 {
        assert_eq!(registry.increment_upvotes(1), Ok(()));
        assert_eq!(registry.get_layers()[1].upvotes, n);
    }
    let before = registry.get_layers();
    assert_eq!(registry.increment_upvotes(1), Err(VoteError::Overflow));
    assert_eq!(registry.increment_upvotes(1), Err(VoteError::Overflow));
    assert_same_layers(&registry.get_layers(), &before);
    assert_eq!(registry.get_layers()[1].upvotes, i8::MAX);
    // the other counter and the other record still take votes
    assert_eq!(registry.increment_downvotes(1), Ok(()));
    assert_eq!(registry.increment_upvotes(0), Ok(()));
}

#[test]
fn downvote_at_maximum_overflows_and_keeps_state() {
    let mut registry = registry_of(&["ipfs://a"]);
    for n in 1..=127 {
        assert_eq!(registry.increment_downvotes(0), Ok(()));
        assert_eq!(registry.get_layers()[0].downvotes, n);
    }
    let before = registry.get_layers();
    assert_eq!(registry.increment_downvotes(0), Err(VoteError::Overflow));
    assert_same_layers(&registry.get_layers(), &before);
    assert_eq!(registry.get_layers()[0].downvotes, 127);
    assert_eq!(registry.get_layers()[0].upvotes, 0);
}

#[test]
fn vote_on_counter_set_to_maximum_overflows() {
    let mut registry = Welcome {
        layers: vec![Layer {
            owner_id: "bob_near".to_string(),
            token_uri: "ipfs://a".to_string(),
            downvotes: i8::MAX,
            upvotes: 126,
        }],
    };
    assert_eq!(registry.increment_downvotes(0), Err(VoteError::Overflow));
    assert_eq!(registry.increment_upvotes(0), Ok(()));
    assert_eq!(registry.increment_upvotes(0), Err(VoteError::Overflow));
    assert_eq!(registry.layers[0].upvotes, 127);
    assert_eq!(registry.layers[0].downvotes, 127);
}

#[test]
fn vote_counts_up_from_a_negative_counter() {
    let mut registry = Welcome {
        layers: vec![Layer {
            owner_id: "bob_near".to_string(),
            token_uri: "ipfs://a".to_string(),
            downvotes: i8::MIN,
            upvotes: -1,
        }],
    };
    assert_eq!(registry.increment_downvotes(0), Ok(()));
    assert_eq!(registry.increment_upvotes(0), Ok(()));
    assert_eq!(registry.layers[0].downvotes, -127);
    assert_eq!(registry.layers[0].upvotes, 0);
}

#[test]
fn out_of_range_is_reported_before_overflow() {
    let mut registry = registry_of(&["ipfs://a"]);
    for _ in 0..127 {
        registry.increment_upvotes(0).unwrap();
    }
    assert_eq!(registry.increment_upvotes(1), Err(VoteError::IndexOutOfRange));
    assert_eq!(registry.increment_upvotes(0), Err(VoteError::Overflow));
}

#[test]
fn get_layers_is_a_snapshot() {
    let mut registry = registry_of(&["ipfs://a"]);
    let mut snapshot = registry.get_layers();
    snapshot[0].upvotes = 9;
    snapshot[0].token_uri.push_str("#changed");
    snapshot.push(snapshot[0].clone());
    assert_eq!(registry.get_layers_length(), 1);
    assert_eq!(registry.get_layers()[0].upvotes, 0);
    assert_eq!(registry.get_layers()[0].token_uri, "ipfs://a");
    registry.increment_upvotes(0).unwrap();
    assert_eq!(snapshot[0].upvotes, 9);
}

#[test]
fn layer_clone_keeps_every_field() {
    let layer = Layer {
        owner_id: "carol_near".to_string(),
        token_uri: "ipfs://c".to_string(),
        downvotes: -4,
        upvotes: 77,
    };
    let copy = layer.clone();
    assert_eq!(copy.owner_id, "carol_near");
    assert_eq!(copy.token_uri, "ipfs://c");
    assert_eq!(copy.downvotes, -4);
    assert_eq!(copy.upvotes, 77);
}

#[test]
fn reads_do_not_change_the_registry() {
    let mut registry = registry_of(&["ipfs://a", "ipfs://b"]);
    registry.increment_downvotes(1).unwrap();
    let first = registry.get_layers();
    let length = registry.get_layers_length();
    let second = registry.get_layers();
    assert_eq!(length, 2);
    assert_eq!(registry.get_layers_length(), 2);
    assert_same_layers(&first, &second);
}

#[test]
fn scenario_mint_vote_and_reject() {
    let mut registry = Welcome::default();
    assert_eq!(registry.get_layers_length(), 0);

    registry.mint_layer("bob_near".to_string(), "ipfs://a".to_string());
    assert_eq!(registry.get_layers_length(), 1);
    let layers = registry.get_layers();
    assert_eq!(layers[0].token_uri, "ipfs://a");
    assert_eq!(layers[0].upvotes, 0);
    assert_eq!(layers[0].downvotes, 0);

    assert_eq!(registry.increment_downvotes(0), Ok(()));
    assert_eq!(registry.get_layers()[0].downvotes, 1);

    let before = registry.get_layers();
    assert_eq!(registry.increment_upvotes(5), Err(VoteError::IndexOutOfRange));
    assert_eq!(registry.get_layers_length(), 1);
    assert_same_layers(&registry.get_layers(), &before);
    assert_eq!(registry.get_layers()[0].token_uri, "ipfs://a");
    assert_eq!(registry.get_layers()[0].upvotes, 0);
    assert_eq!(registry.get_layers()[0].downvotes, 1);
}

#[test]
fn vote_error_variants_differ() {
    assert_ne!(VoteError::IndexOutOfRange, VoteError::Overflow);
    assert_eq!(format!("{:?}", VoteError::IndexOutOfRange), "IndexOutOfRange");
    assert_eq!(format!("{:?}", VoteError::Overflow), "Overflow");
}

fn assert_same_layers(left: &[Layer], right: &[Layer]) {
    assert_eq!(left.len(), right.len());
    for (l, r) in left.iter().zip(right.iter()) {
        assert_eq!(l.owner_id, r.owner_id);
        assert_eq!(l.token_uri, r.token_uri);
        assert_eq!(l.upvotes, r.upvotes);
        assert_eq!(l.downvotes, r.downvotes);
    }
}
