//! The library-wide laws, each stated over the spec functions the public
//! contracts use, and proved once and for all.
use vstd::prelude::*;
use crate::builder::BuilderPredicateV;
use crate::crypto::{private_from_state, signature_bytes, KeyPair};
use crate::datalog::{find_symbol, intern_spec, pass_from, query_spec, run_from, FactV, RuleV};
use crate::token::{check_spec, BiscuitV};
use crate::token::authorizer::{remove_time, resource_fact, time_fact};

verus! {

/// Adding the same resource twice accumulates two distinct entries, both
/// that resource fact: the verifier deduplicates nothing.
pub proof fn lemma_resource_facts_accumulate(fs: Seq<BuilderPredicateV>, r: Seq<char>)
    ensures
        fs.push(resource_fact(r)).push(resource_fact(r)).len() == fs.len() + 2,
        fs.push(resource_fact(r)).push(resource_fact(r))[fs.len() as int] == resource_fact(r),
        fs.push(resource_fact(r)).push(resource_fact(r))[fs.len() as int + 1] == resource_fact(r),
{
}

/// The number of facts named "time" among `fs[i..]`.
pub open spec fn count_time(fs: Seq<BuilderPredicateV>, i: int) -> int
    decreases fs.len() - i,
{
    if i < 0 || i >= fs.len() {
        0
    } else {
        (if fs[i].name == "time"@ {
            1int
        } else {
            0int
        }) + count_time(fs, i + 1)
    }
}

/// Appending one fact adds its own count.
proof fn lemma_count_time_push(fs: Seq<BuilderPredicateV>, f: BuilderPredicateV, i: int)
    requires
        0 <= i <= fs.len(),
    ensures
        count_time(fs.push(f), i) == count_time(fs, i) + (if f.name == "time"@ {
            1int
        } else {
            0int
        }),
    decreases fs.len() - i,
{
    if i < fs.len() {
        assert(fs.push(f)[i] == fs[i]);
        lemma_count_time_push(fs, f, i + 1);
    } else {
        assert(count_time(fs, i) == 0);
        assert(fs.push(f)[i] == f);
        assert(count_time(fs.push(f), i + 1) == 0);
        assert(count_time(fs.push(f), i) == (if f.name == "time"@ {
            1int
        } else {
            0int
        }) + count_time(fs.push(f), i + 1));
    }
}

/// What `set_time` keeps holds no fact named "time", provided the
/// accumulator held none.
proof fn lemma_remove_time_clean(fs: Seq<BuilderPredicateV>, i: int, acc: Seq<BuilderPredicateV>)
    requires
        count_time(acc, 0) == 0,
    ensures
        count_time(remove_time(fs, i, acc), 0) == 0,
    decreases fs.len() - i,
{
    if 0 <= i < fs.len() {
        if fs[i].name == "time"@ {
            lemma_remove_time_clean(fs, i + 1, acc);
        } else {
            lemma_count_time_push(acc, fs[i], 0);
            lemma_remove_time_clean(fs, i + 1, acc.push(fs[i]));
        }
    }
}

/// After `set_time`'s update, exactly one fact named "time" remains — the
/// appended one, carrying the latest timestamp — however many time facts
/// stood in the list before.
pub proof fn lemma_set_time_single(fs: Seq<BuilderPredicateV>, t: u64)
    ensures
        count_time(remove_time(fs, 0, Seq::empty()).push(time_fact(t)), 0) == 1,
        remove_time(fs, 0, Seq::empty()).push(time_fact(t)).last() == time_fact(t),
{
    assert(count_time(Seq::<BuilderPredicateV>::empty(), 0) == 0);
    lemma_remove_time_clean(fs, 0, Seq::empty());
    lemma_count_time_push(remove_time(fs, 0, Seq::empty()), time_fact(t), 0);
}

/// A name absent from `syms[i..]` and interned afterwards is found at the
/// old end.
proof fn lemma_find_pushed(syms: Seq<Seq<char>>, name: Seq<char>, i: int)
    requires
        0 <= i <= syms.len(),
        find_symbol(syms, name, i) is None,
    ensures
        find_symbol(syms.push(name), name, i) == Some(syms.len() as int),
    decreases syms.len() - i,
{
    if i < syms.len() {
        lemma_find_pushed(syms, name, i + 1);
    }
}

/// Interning is stable: interning a name a second time yields the same id
/// and leaves the table unchanged. A symbol authored by the constructor
/// and the same text supplied as an operation therefore meet in one id
/// within one verification.
pub proof fn lemma_intern_stable(syms: Seq<Seq<char>>, name: Seq<char>)
    ensures
        intern_spec(intern_spec(syms, name).0, name).0 == intern_spec(syms, name).0,
        intern_spec(intern_spec(syms, name).0, name).1 == intern_spec(syms, name).1,
{
    match find_symbol(syms, name, 0) {
        Some(j) => {},
        None => {
            lemma_find_pushed(syms, name, 0);
        },
    }
}

/// Key pairs constructed from identically seeded deterministic sources are
/// the same pair, and sign identical words with byte-identical signatures.
pub proof fn lemma_identical_seeds_identical_signatures(
    kp1: KeyPair,
    kp2: KeyPair,
    seed: u64,
    words: Seq<u64>,
)
    requires
        kp1.private == private_from_state(seed),
        kp2.private == private_from_state(seed),
    ensures
        kp1.private == kp2.private,
        signature_bytes(kp1.private, words) == signature_bytes(kp2.private, words),
{
}

/// Whether every caveat of `cs` has a satisfying binding in `w`.
pub open spec fn all_satisfied(cs: Seq<RuleV>, w: Seq<FactV>) -> bool {
    forall|j: int| 0 <= j < cs.len() ==> (#[trigger] query_spec(cs[j], w)).len() > 0
}

/// The failed-caveat accumulator ends empty exactly when it began empty
/// and every caveat from `i` on is satisfied.
proof fn lemma_failed_empty_iff(
    cs: Seq<RuleV>,
    w: Seq<FactV>,
    i: int,
    acc: Seq<crate::error::FailedCaveat>,
)
    requires
        0 <= i <= cs.len(),
    ensures
        crate::token::failed_verifier_caveats(cs, w, i, acc).len() == 0 <==> (acc.len() == 0
            && forall|j: int| i <= j < cs.len() ==> (#[trigger] query_spec(cs[j], w)).len() > 0),
    decreases cs.len() - i,
{
    if i < cs.len() {
        if query_spec(cs[i], w).len() == 0 {
            lemma_failed_empty_iff(
                cs,
                w,
                i + 1,
                acc.push(crate::error::FailedCaveat::Verifier { caveat_id: i as u32 }),
            );
        } else {
            lemma_failed_empty_iff(cs, w, i + 1, acc);
        }
    }
}

/// A caveat added twice is checked twice, but the overall outcome is as if
/// it were added once: with the duplicate the check succeeds exactly when
/// it succeeds without it.
pub proof fn lemma_duplicate_caveat(
    t: BiscuitV,
    ambient_facts: Seq<FactV>,
    ambient_rules: Seq<RuleV>,
    ambient_caveats: Seq<RuleV>,
    c: RuleV,
)
    requires
        ambient_caveats.contains(c),
    ensures
        check_spec(t, ambient_facts, ambient_rules, ambient_caveats.push(c)) is Ok <==> check_spec(
            t,
            ambient_facts,
            ambient_rules,
            ambient_caveats,
        ) is Ok,
{
    let facts = crate::token::token_facts(t) + ambient_facts;
    let rules = crate::token::token_rules(t) + ambient_rules;
    match run_from(facts, rules, crate::datalog::MAX_ITERATIONS as nat) {
        None => {},
        Some(w) => {
            let base = crate::token::failed_blocks(
                t.blocks,
                w,
                0,
                crate::token::failed_block_caveats(t.authority.caveats, w, 0, 0, Seq::empty()),
            );
            lemma_failed_empty_iff(ambient_caveats, w, 0, base);
            lemma_failed_empty_iff(ambient_caveats.push(c), w, 0, base);
            let acp = ambient_caveats.push(c);
            if forall|j: int|
                0 <= j < ambient_caveats.len() ==> (#[trigger] query_spec(
                    ambient_caveats[j],
                    w,
                )).len() > 0 {
                let j0 = choose|j0: int|
                    0 <= j0 < ambient_caveats.len() && ambient_caveats[j0] == c;
                assert(query_spec(ambient_caveats[j0], w).len() > 0);
                assert forall|k: int| 0 <= k < acp.len() implies (#[trigger] query_spec(
                    acp[k],
                    w,
                )).len() > 0 by {
                    if k < ambient_caveats.len() {
                        assert(acp[k] == ambient_caveats[k]);
                        assert(query_spec(ambient_caveats[k], w).len() > 0);
                    } else {
                        assert(acp[k] == c);
                    }
                }
            }
            if forall|k: int| 0 <= k < acp.len() ==> (#[trigger] query_spec(acp[k], w)).len()
                > 0 {
                assert forall|j: int| 0 <= j < ambient_caveats.len() implies (
                #[trigger] query_spec(ambient_caveats[j], w)).len() > 0 by {
                    assert(ambient_caveats[j] == acp[j]);
                    assert(query_spec(acp[j], w).len() > 0);
                }
            }
        },
    }
}

/// Over a ground fact set with no rules the fixpoint is the fact set
/// itself, reached at once: a caveat-only verification evaluates directly
/// against the ground facts.
pub proof fn lemma_no_rules_single_pass(facts: Seq<FactV>, fuel: nat)
    ensures
        run_from(facts, Seq::empty(), fuel) == Some(facts),
{
    assert(pass_from(facts, facts, Seq::empty(), 0) == facts);
}

} // verus!
