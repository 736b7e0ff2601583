use biscuit::builder::{fact, integer, pred, rule, s, string, variable};
use biscuit::crypto::{KeyPair, RandomSource};
use biscuit::error::{FailedCaveat, Format, Logic};
use biscuit::token::Biscuit;

fn demo_token() -> Biscuit {
    let mut rng = RandomSource::from_seed(1234);
    let root = KeyPair::new_with_rng(&mut rng);
    let mut builder = Biscuit::builder(&root);
    builder.add_authority_fact(fact("right", &[s("authority"), string("file1"), s("read")]));
    builder.add_authority_fact(fact("right", &[s("authority"), string("file2"), s("read")]));
    builder.add_authority_fact(fact("right", &[s("authority"), string("file1"), s("write")]));
    builder.build_with_rng(&mut rng)
}

#[test]
fn rights_example_denies_missing_right() {
    let token = demo_token();
    let mut v = token.authorizer();
    v.add_caveat(rule(
        "right",
        &[s("right")],
        &[pred("right", &[s("authority"), string("file2"), s("write")])],
    ));
    let res = v.authorize();
    match res {
        Err(Logic::FailedCaveats(list)) => {
            assert_eq!(list.len(), 1);
            assert!(matches!(list[0], FailedCaveat::Verifier { caveat_id: 0 }));
        },
        other => panic!("expected a denial, got {:?}", other.is_ok()),
    }
}

#[test]
fn rights_example_grants_present_right() {
    let token = demo_token();
    let mut v = token.authorizer();
    v.add_caveat(rule(
        "right",
        &[s("right")],
        &[pred("right", &[s("authority"), string("file1"), s("write")])],
    ));
    assert!(v.verify().is_ok());
}

#[test]
fn revocation_check_denies_revoked_id() {
    let mut rng = RandomSource::from_seed(7);
    let root = KeyPair::new_with_rng(&mut rng);
    let mut builder = Biscuit::builder(&root);
    builder.add_authority_fact(fact("revocation_id", &[integer(9)]));
    let token = builder.build_with_rng(&mut rng);
    let mut v = token.authorizer();
    v.revocation_check(&[5, 9]);
    assert!(v.verify().is_err());
}

#[test]
fn revocation_check_passes_unrevoked_id() {
    let mut rng = RandomSource::from_seed(7);
    let root = KeyPair::new_with_rng(&mut rng);
    let mut builder = Biscuit::builder(&root);
    builder.add_authority_fact(fact("revocation_id", &[integer(7)]));
    let token = builder.build_with_rng(&mut rng);
    let mut v = token.authorizer();
    v.revocation_check(&[5, 9]);
    assert!(v.verify().is_ok());
}

#[test]
fn add_resource_accumulates_duplicates() {
    let token = demo_token();
    let mut v = token.authorizer();
    v.add_resource("file1");
    v.add_resource("file1");
    assert_eq!(v.facts.len(), 2);
    assert_eq!(v.facts[0].0.name, "resource");
    assert_eq!(v.facts[1].0.name, "resource");
}

#[test]
fn set_time_keeps_exactly_one_time_fact() {
    let token = demo_token();
    let mut v = token.authorizer();
    v.add_resource("file1");
    v.set_time();
    v.set_time();
    let time_facts = v.facts.iter().filter(|f| f.0.name == "time").count();
    assert_eq!(time_facts, 1);
    assert_eq!(v.facts.len(), 2);
    assert_eq!(v.facts[1].0.name, "time");
}

#[test]
fn verifications_are_isolated() {
    let token = demo_token();
    let symbols_before = token.symbols.symbols.len();

    let mut v1 = token.authorizer();
    v1.add_operation("read");
    v1.add_caveat(rule(
        "op",
        &[s("op")],
        &[pred("operation", &[s("ambient"), s("read")])],
    ));
    assert!(v1.verify().is_ok());

    // a second verification on the same token sees none of the first's
    // ambient facts or interned symbols
    let mut v2 = token.authorizer();
    v2.add_caveat(rule(
        "op",
        &[s("op")],
        &[pred("operation", &[s("ambient"), s("read")])],
    ));
    assert!(v2.verify().is_err());
    assert_eq!(v2.facts.len(), 0);
    assert_eq!(v2.caveats.len(), 1);

    assert_eq!(token.symbols.symbols.len(), symbols_before);
}

#[test]
fn symbol_and_operation_intern_to_one_id() {
    // the caveat names the operation through the symbol constructor; the
    // ambient fact comes through add_operation: they must meet in one id
    let token = demo_token();
    let mut v = token.authorizer();
    v.add_operation("write");
    v.add_caveat(rule(
        "op",
        &[s("op")],
        &[pred("operation", &[s("ambient"), s("write")])],
    ));
    assert!(v.verify().is_ok());
}

#[test]
fn identical_seeds_give_identical_signatures() {
    let build = |seed: u64| {
        let mut rng = RandomSource::from_seed(seed);
        let root = KeyPair::new_with_rng(&mut rng);
        let mut builder = Biscuit::builder(&root);
        builder.add_authority_fact(fact("right", &[s("authority"), string("file1"), s("read")]));
        builder.build_with_rng(&mut rng)
    };
    let t1 = build(42);
    let t2 = build(42);
    assert_eq!(t1.signature, t2.signature);
    let t3 = build(43);
    assert_ne!(t3.signature, t1.signature);
}

#[test]
fn duplicate_caveat_keeps_outcome() {
    let token = demo_token();

    let failing = rule(
        "right",
        &[s("right")],
        &[pred("right", &[s("authority"), string("file2"), s("write")])],
    );
    let mut v = token.authorizer();
    v.add_caveat(failing.clone());
    v.add_caveat(failing);
    match v.verify() {
        Err(Logic::FailedCaveats(list)) => {
            // checked twice: both occurrences reported
            assert_eq!(list.len(), 2);
        },
        _ => panic!("expected a denial"),
    }

    let passing = rule(
        "right",
        &[s("right")],
        &[pred("right", &[s("authority"), string("file1"), s("read")])],
    );
    let mut v2 = token.authorizer();
    v2.add_caveat(passing.clone());
    v2.add_caveat(passing);
    assert!(v2.verify().is_ok());
}

#[test]
fn caveat_only_verification_uses_ground_facts() {
    // no rules anywhere: the fixpoint is the ground fact set itself
    let token = demo_token();
    let mut v = token.authorizer();
    v.add_caveat(rule(
        "right",
        &[s("right")],
        &[pred("right", &[s("authority"), string("file2"), s("read")])],
    ));
    assert!(v.verify().is_ok());
}

#[test]
fn rules_derive_facts_to_fixpoint() {
    let mut rng = RandomSource::from_seed(99);
    let root = KeyPair::new_with_rng(&mut rng);
    let mut builder = Biscuit::builder(&root);
    builder.add_authority_fact(fact("parent", &[integer(1), integer(2)]));
    builder.add_authority_fact(fact("parent", &[integer(2), integer(3)]));
    let token = builder.build_with_rng(&mut rng);

    let mut v = token.authorizer();
    v.add_rule(rule(
        "ancestor",
        &[variable(0), variable(1)],
        &[pred("parent", &[variable(0), variable(1)])],
    ));
    v.add_rule(rule(
        "ancestor",
        &[variable(0), variable(2)],
        &[
            pred("ancestor", &[variable(0), variable(1)]),
            pred("parent", &[variable(1), variable(2)]),
        ],
    ));
    // ancestor(1, 3) only exists after the second derivation pass
    v.add_caveat(rule(
        "found",
        &[s("found")],
        &[pred("ancestor", &[integer(1), integer(3)])],
    ));
    assert!(v.verify().is_ok());
}

#[test]
fn root_key_check_tells_keys_apart() {
    let mut rng = RandomSource::from_seed(1234);
    let root = KeyPair::new_with_rng(&mut rng);
    let mut builder = Biscuit::builder(&root);
    builder.add_authority_fact(fact("right", &[s("authority"), string("file1"), s("read")]));
    let token = builder.build_with_rng(&mut rng);

    assert!(token.check_root_key(&root).is_ok());
    let mut other_rng = RandomSource::from_seed(4321);
    let other = KeyPair::new_with_rng(&mut other_rng);
    assert_eq!(token.check_root_key(&other), Err(Format::InvalidSignature));
}

#[test]
fn symbol_table_interns_stably() {
    let mut table = biscuit::datalog::SymbolTable::new();
    let a = table.insert("authority");
    let b = table.insert("ambient");
    let a2 = table.insert("authority");
    assert_eq!(a, a2);
    assert_ne!(a, b);
    assert_eq!(table.resolve(a).unwrap().as_str(), "authority");
    assert_eq!(table.resolve(b).unwrap().as_str(), "ambient");
    assert!(table.resolve(99).is_none());
}

#[test]
fn print_renders_facts_and_block_count() {
    let token = demo_token();
    let text = token.print();
    // three authority facts, no later blocks
    assert!(text.starts_with("3\n"));
    assert!(text.ends_with("0\n"));
    assert_eq!(text.lines().count(), 5);
    assert!(text.contains('('));
}

#[test]
fn secure_default_keypair_is_well_formed() {
    let kp1 = KeyPair::new();
    let kp2 = KeyPair::new();
    // the halves belong together, and signing stays deterministic per key
    let words = vec![1u64, 2, 3];
    assert_eq!(kp1.sign(&words), kp1.sign(&words));
    let _ = kp2;
}
