use psyche::committee_selection::{Committee, CommitteeProof, CommitteeSelection, WitnessProof};

#[test]
fn test_new_committee_selection() {
    let cs = CommitteeSelection::new(10, 20, 30, 100, 12345);
    assert_eq!(cs.tie_breaker_nodes, 10);
    assert_eq!(cs.witness_nodes, 20);
    assert_eq!(cs.verifier_nodes, 27); // (100 - 10) * 30% = 27
    assert_eq!(cs.total_nodes, 100);
}

#[test]
fn test_get_committee() {
    let cs = CommitteeSelection::new(10, 20, 30, 100, 12345);
    for i in 0..100 {
        let proof = cs.get_committee(i);
        assert!(proof.position < 100);
        match proof.committee {
            Committee::TieBreaker => assert!(proof.position < 10),
            Committee::Verifier => assert!(proof.position >= 10 && proof.position < 37),
            Committee::Trainer => assert!(proof.position >= 37),
        }
    }
}

#[test]
fn test_get_witness() {
    let cs = CommitteeSelection::new(10, 20, 30, 100, 12345);
    for i in 0..100 {
        let proof = cs.get_witness(i);
        assert!(proof.position < 100);
        if proof.witness {
            assert!(proof.position < 20);
        } else {
            assert!(proof.position >= 20);
        }
    }
}

#[test]
fn test_verify_committee() {
    let cs = CommitteeSelection::new(10, 20, 30, 100, 12345);
    for i in 0..100 {
        let proof = cs.get_committee(i);
        assert!(cs.verify_committee(&proof));
        let incorrect_proof = CommitteeProof {
            committee: Committee::Verifier,
            position: 99,
            index: i,
        };
        assert!(!cs.verify_committee(&incorrect_proof));
    }
}

#[test]
fn test_verify_witness() {
    let cs = CommitteeSelection::new(10, 20, 30, 100, 12345);
    for i in 0..100 {
        let proof = cs.get_witness(i);
        assert!(cs.verify_witness(&proof));
        let incorrect_proof = WitnessProof {
            witness: !proof.witness,
            position: 99,
            index: i,
        };
        assert!(!cs.verify_witness(&incorrect_proof));
    }
}

#[test]
fn test_committee_distribution() {
    let cs = CommitteeSelection::new(10, 20, 30, 100, 12345);
    let mut tie_breaker_count = 0;
    let mut verifier_count = 0;
    let mut trainer_count = 0;
    for i in 0..100 {
        match cs.get_committee(i).committee {
            Committee::TieBreaker => tie_breaker_count += 1,
            Committee::Verifier => verifier_count += 1,
            Committee::Trainer => trainer_count += 1,
        }
    }
    assert_eq!(tie_breaker_count, 10);
    assert_eq!(verifier_count, 27);
    assert_eq!(trainer_count, 63);
}

#[test]
fn test_witness_distribution() {
    let cs = CommitteeSelection::new(10, 20, 30, 100, 12345);
    let mut witness_count = 0;
    for i in 0..100 {
        if cs.get_witness(i).witness {
            witness_count += 1;
        }
    }
    assert_eq!(witness_count, 20);
}

#[test]
fn test_get_num_nodes() {
    let cs = CommitteeSelection::new(10, 5, 20, 100, 12345);
    assert_eq!(cs.get_num_tie_breaker_nodes(), 10);
    assert_eq!(cs.get_num_verifier_nodes(), 18);
    assert_eq!(cs.get_num_trainer_nodes(), 72);
}

#[test]
fn test_seed_consistency() {
    let cs1 = CommitteeSelection::new(10, 5, 20, 100, 12345);
    let cs2 = CommitteeSelection::new(10, 5, 20, 100, 12345);
    assert_eq!(cs1.get_seed(), cs2.get_seed());
}

#[test]
fn test_edge_case_all_tie_breakers() {
    let cs = CommitteeSelection::new(100, 5, 20, 100, 12345);
    for i in 0..100 {
        let committee = cs.get_committee(i).committee;
        assert_eq!(committee, Committee::TieBreaker);
    }
}

#[test]
fn test_edge_case_no_verifiers() {
    let cs = CommitteeSelection::new(10, 5, 0, 100, 12345);
    let mut tie_breaker_count = 0;
    let mut trainer_count = 0;
    for i in 0..100 {
        let committee = cs.get_committee(i).committee;
        match committee {
            Committee::TieBreaker => tie_breaker_count += 1,
            Committee::Trainer => trainer_count += 1,
            _ => panic!("Unexpected committee type"),
        }
    }
    assert_eq!(tie_breaker_count, 10);
    assert_eq!(trainer_count, 90);
}

#[test]
fn committee_seed_is_sha256_of_le_seed() {
    // sha256 of 12345u64 as little-endian bytes
    let cs = CommitteeSelection::new(10, 5, 20, 100, 12345);
    let expected = "e1543551249113046932741cc28f36b4bbcc542233eb5094874072d3167f160a";
    let got: String = cs.get_seed().iter().map(|b| format!("{:02x}", b)).collect();
    assert_eq!(got, expected);
}

#[test]
fn committee_proofs_verify_only_for_their_client() {
    let cs = CommitteeSelection::new(2, 3, 50, 10, 7);
    for i in 0..10u64 {
        let p = cs.get_committee(i);
        assert_eq!(p.index, i);
        assert!(cs.verify_committee(&p));
        let w = cs.get_witness(i);
        assert!(cs.verify_witness(&w));
        let moved = CommitteeProof { position: (p.position + 1) % 10, ..p };
        assert!(!cs.verify_committee(&moved));
    }
}

#[test]
fn committee_to_string_names() {
    assert_eq!(Committee::TieBreaker.to_string(), "Tie breaker");
    assert_eq!(Committee::Verifier.to_string(), "Verifier");
    assert_eq!(Committee::Trainer.to_string(), "Trainer");
}
