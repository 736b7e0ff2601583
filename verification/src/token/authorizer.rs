//! The per-attempt verifier: it borrows one token, accumulates ambient
//! facts, rules and caveats in un-interned form, and on `verify` clones the
//! token's symbol table, interns the ambient context into the clone and
//! delegates to the token's check. Symbol ids assigned here are local to
//! this verification and never leak back into the token.
use vstd::prelude::*;
use crate::builder;
use crate::builder::{
    bfacts_view, brules_view, convert_facts_spec, convert_rules_spec, AtomV, BuilderPredicateV,
    BuilderRuleV,
};
use crate::datalog;
use crate::datalog::{
    facts_view, rules_view, str_eq, Constraint, ConstraintKind, ConstraintV, IntConstraint,
};
use crate::error;
use crate::token::{check_spec, Biscuit};

verus! {

/// Relies on std::time::SystemTime: the wall clock now, as whole seconds
/// since the Unix epoch (0 if the clock stands before it). Nothing is
/// promised of the value.
#[verifier::external_body]
fn current_time_seconds() -> u64 {
    match std::time::SystemTime::now().duration_since(std::time::UNIX_EPOCH) {
        Ok(d) => d.as_secs(),
        Err(_) => 0,
    }
}

/// The ambient fact `resource("ambient", r)`, the resource as free text.
pub open spec fn resource_fact(r: Seq<char>) -> BuilderPredicateV {
    BuilderPredicateV {
        name: "resource"@,
        ids: seq![AtomV::Symbol("ambient"@), AtomV::Str(r)],
    }
}

/// The ambient fact `operation("ambient", op)`, the operation as a symbol:
/// operations form a closed, reusable vocabulary, unlike resources.
pub open spec fn operation_fact(op: Seq<char>) -> BuilderPredicateV {
    BuilderPredicateV {
        name: "operation"@,
        ids: seq![AtomV::Symbol("ambient"@), AtomV::Symbol(op)],
    }
}

/// The ambient fact `time("ambient", t)`.
pub open spec fn time_fact(t: u64) -> BuilderPredicateV {
    BuilderPredicateV {
        name: "time"@,
        ids: seq![AtomV::Symbol("ambient"@), AtomV::Date(t)],
    }
}

/// `acc` followed by the facts from position `i` on whose name is not
/// "time".
pub open spec fn remove_time(
    fs: Seq<BuilderPredicateV>,
    i: int,
    acc: Seq<BuilderPredicateV>,
) -> Seq<BuilderPredicateV>
    decreases fs.len() - i,
{
    if i < 0 || i >= fs.len() {
        acc
    } else {
        remove_time(
            fs,
            i + 1,
            if fs[i].name == "time"@ {
                acc
            } else {
                acc.push(fs[i])
            },
        )
    }
}

/// The caveat `revocation_check` requires: some fact `revocation_id(v)`
/// must exist whose integer `v` is outside the revoked list.
pub open spec fn revocation_caveat(ids: Seq<i64>) -> BuilderRuleV {
    BuilderRuleV {
        head: BuilderPredicateV { name: "revocation_check"@, ids: seq![AtomV::Variable(0)] },
        body: seq![
            BuilderPredicateV { name: "revocation_id"@, ids: seq![AtomV::Variable(0)] },
        ],
        constraints: seq![ConstraintV { id: 0, not_in: ids }],
    }
}

/// What `verify` yields: the ambient facts, rules and caveats are interned
/// into the token's cloned symbol table, in that order, and the token is
/// checked against them.
pub open spec fn verify_spec(
    t: crate::token::BiscuitV,
    facts: Seq<BuilderPredicateV>,
    rules: Seq<BuilderRuleV>,
    caveats: Seq<BuilderRuleV>,
) -> Result<(), error::LogicV> {
    let (s1, af) = convert_facts_spec(t.symbols, facts, 0, Seq::empty());
    let (s2, ar) = convert_rules_spec(s1, rules, 0, Seq::empty());
    let (s3, ac) = convert_rules_spec(s2, caveats, 0, Seq::empty());
    check_spec(t, af, ar, ac)
}

/// A short-lived accumulator of ambient context, borrowing one token.
/// Appends are verbatim: nothing is deduplicated or validated here.
pub struct Verifier<'a> {
    pub token: &'a Biscuit,
    pub facts: Vec<builder::Fact>,
    pub rules: Vec<builder::Rule>,
    pub caveats: Vec<builder::Rule>,
}

impl<'a> Verifier<'a> {
    /// A verifier with no ambient context yet.
    pub(crate) fn new(token: &'a Biscuit) -> (v: Verifier<'a>)
        ensures
            v.token == token,
            bfacts_view(v.facts@) == Seq::<BuilderPredicateV>::empty(),
            brules_view(v.rules@) == Seq::<BuilderRuleV>::empty(),
            brules_view(v.caveats@) == Seq::<BuilderRuleV>::empty(),
    {
        let v = Verifier { token, facts: Vec::new(), rules: Vec::new(), caveats: Vec::new() };
        assert(bfacts_view(v.facts@) =~= Seq::<BuilderPredicateV>::empty());
        assert(brules_view(v.rules@) =~= Seq::<BuilderRuleV>::empty());
        assert(brules_view(v.caveats@) =~= Seq::<BuilderRuleV>::empty());
        v
    }

    /// Appends one ambient fact verbatim.
    pub fn add_fact(&mut self, fact: builder::Fact)
        ensures
            bfacts_view(final(self).facts@) == bfacts_view(old(self).facts@).push(fact@),
            final(self).rules@ == old(self).rules@,
            final(self).caveats@ == old(self).caveats@,
            final(self).token == old(self).token,
    {
        let ghost before = bfacts_view(self.facts@);
        let ghost fv = fact@;
        self.facts.push(fact);
        assert(bfacts_view(self.facts@) =~= before.push(fv));
    }

    /// Appends one ambient rule verbatim: it joins this verification's
    /// derivation, never the token.
    pub fn add_rule(&mut self, rule: builder::Rule)
        ensures
            brules_view(final(self).rules@) == brules_view(old(self).rules@).push(rule@),
            final(self).facts@ == old(self).facts@,
            final(self).caveats@ == old(self).caveats@,
            final(self).token == old(self).token,
    {
        let ghost before = brules_view(self.rules@);
        let ghost rv = rule@;
        self.rules.push(rule);
        assert(brules_view(self.rules@) =~= before.push(rv));
    }

    /// Appends one caveat that must be satisfied. A caveat added twice is
    /// checked twice, redundantly.
    pub fn add_caveat(&mut self, caveat: builder::Rule)
        ensures
            brules_view(final(self).caveats@) == brules_view(old(self).caveats@).push(caveat@),
            final(self).facts@ == old(self).facts@,
            final(self).rules@ == old(self).rules@,
            final(self).token == old(self).token,
    {
        let ghost before = brules_view(self.caveats@);
        let ghost cv = caveat@;
        self.caveats.push(caveat);
        assert(brules_view(self.caveats@) =~= before.push(cv));
    }

    /// Appends `resource("ambient", resource)`, the resource as free text.
    /// Equal resources accumulate: nothing is deduplicated.
    pub fn add_resource(&mut self, resource: &str)
        ensures
            bfacts_view(final(self).facts@) == bfacts_view(old(self).facts@).push(
                resource_fact(resource@),
            ),
            final(self).rules@ == old(self).rules@,
            final(self).caveats@ == old(self).caveats@,
            final(self).token == old(self).token,
    {
        let mut ids: Vec<builder::Atom> = Vec::new();
        ids.push(builder::s("ambient"));
        ids.push(builder::string(resource));
        let f = builder::Fact(builder::Predicate { name: "resource".to_owned(), ids });
        assert(f@ =~= resource_fact(resource@));
        self.add_fact(f);
    }

    /// Appends `operation("ambient", operation)`, the operation as a
    /// symbol — a closed vocabulary, unlike `add_resource`'s free text.
    pub fn add_operation(&mut self, operation: &str)
        ensures
            bfacts_view(final(self).facts@) == bfacts_view(old(self).facts@).push(
                operation_fact(operation@),
            ),
            final(self).rules@ == old(self).rules@,
            final(self).caveats@ == old(self).caveats@,
            final(self).token == old(self).token,
    {
        let mut ids: Vec<builder::Atom> = Vec::new();
        ids.push(builder::s("ambient"));
        ids.push(builder::s(operation));
        let f = builder::Fact(builder::Predicate { name: "operation".to_owned(), ids });
        assert(f@ =~= operation_fact(operation@));
        self.add_fact(f);
    }

    /// Removes every fact named "time", then appends `time("ambient", now)`
    /// for the wall clock's now: however often it is called, exactly one
    /// time fact survives, the latest.
    pub fn set_time(&mut self)
        ensures
            exists|t: u64|
                bfacts_view(final(self).facts@) == remove_time(
                    bfacts_view(old(self).facts@),
                    0,
                    Seq::empty(),
                ).push(time_fact(t)),
            final(self).rules@ == old(self).rules@,
            final(self).caveats@ == old(self).caveats@,
            final(self).token == old(self).token,
    {
        let now = current_time_seconds();
        let ghost fsv = bfacts_view(self.facts@);
        let mut kept: Vec<builder::Fact> = Vec::new();
        assert(bfacts_view(kept@) =~= Seq::<BuilderPredicateV>::empty());
        let mut i: usize = 0;
        while i < self.facts.len()
            invariant
                i <= self.facts.len(),
                fsv == bfacts_view(self.facts@),
                fsv.len() == self.facts@.len(),
                remove_time(fsv, 0, Seq::empty()) == remove_time(fsv, i as int, bfacts_view(kept@)),
            decreases self.facts.len() - i,
        {
            assert(fsv[i as int] == self.facts@[i as int]@);
            let ghost keptv = bfacts_view(kept@);
            if !str_eq(self.facts[i].0.name.as_str(), "time") {
                kept.push(self.facts[i].clone());
                assert(bfacts_view(kept@) =~= keptv.push(fsv[i as int]));
            }
            i += 1;
        }
        let mut ids: Vec<builder::Atom> = Vec::new();
        ids.push(builder::s("ambient"));
        ids.push(builder::date(now));
        let f = builder::Fact(builder::Predicate { name: "time".to_owned(), ids });
        assert(f@ =~= time_fact(now));
        let ghost keptv = bfacts_view(kept@);
        kept.push(f);
        assert(bfacts_view(kept@) =~= keptv.push(time_fact(now)));
        self.facts = kept;
    }

    /// Appends the revocation caveat: some `revocation_id` fact must carry
    /// an integer outside `ids`. A token whose every revocation id is in
    /// `ids` is thereby denied.
    pub fn revocation_check(&mut self, ids: &[i64])
        ensures
            brules_view(final(self).caveats@) == brules_view(old(self).caveats@).push(
                revocation_caveat(ids@),
            ),
            final(self).facts@ == old(self).facts@,
            final(self).rules@ == old(self).rules@,
            final(self).token == old(self).token,
    {
        let mut not_in: Vec<i64> = Vec::new();
        let mut i: usize = 0;
        while i < ids.len()
            invariant
                i <= ids@.len(),
                not_in@ == ids@.subrange(0, i as int),
            decreases ids@.len() - i,
        {
            not_in.push(ids[i]);
            assert(not_in@ =~= ids@.subrange(0, (i + 1) as int));
            i += 1;
        }
        assert(not_in@ =~= ids@);
        let mut head_ids: Vec<builder::Atom> = Vec::new();
        head_ids.push(builder::variable(0));
        let mut body_ids: Vec<builder::Atom> = Vec::new();
        body_ids.push(builder::variable(0));
        let mut body: Vec<builder::Predicate> = Vec::new();
        body.push(builder::Predicate { name: "revocation_id".to_owned(), ids: body_ids });
        let mut constraints: Vec<Constraint> = Vec::new();
        constraints.push(
            Constraint { id: 0, kind: ConstraintKind::Int(IntConstraint::NotIn(not_in)) },
        );
        let caveat = builder::Rule(
            builder::Predicate { name: "revocation_check".to_owned(), ids: head_ids },
            body,
            constraints,
        );
        assert(caveat@ =~= revocation_caveat(ids@));
        self.add_caveat(caveat);
    }

    /// Clones the token's symbol table, interns every accumulated ambient
    /// value into the clone — the token's own ids are preserved, new names
    /// get fresh ids local to this verification — and delegates to the
    /// token's check. Every failure is the check's; none originates here.
    pub fn verify(&self) -> (r: Result<(), error::Logic>)
        requires
            self.token@.authority.caveats.len() <= u32::MAX,
            self.token@.blocks.len() < u32::MAX,
            forall|j: int|
                0 <= j < self.token@.blocks.len() ==> (#[trigger] self.token@.blocks[j]).caveats.len()
                    <= u32::MAX,
            self.caveats@.len() <= u32::MAX,
        ensures
            error::result_view(r) == verify_spec(
                self.token@,
                bfacts_view(self.facts@),
                brules_view(self.rules@),
                brules_view(self.caveats@),
            ),
    {
        let mut symbols = self.token.symbols.clone();
        let ghost s0 = self.token@.symbols;

        let ghost fsv = bfacts_view(self.facts@);
        let mut ambient_facts: Vec<datalog::Fact> = Vec::new();
        assert(facts_view(ambient_facts@) =~= Seq::<datalog::FactV>::empty());
        let mut i: usize = 0;
        while i < self.facts.len()
            invariant
                i <= self.facts.len(),
                fsv == bfacts_view(self.facts@),
                fsv.len() == self.facts@.len(),
                convert_facts_spec(s0, fsv, 0, Seq::empty()) == convert_facts_spec(
                    symbols@,
                    fsv,
                    i as int,
                    facts_view(ambient_facts@),
                ),
            decreases self.facts.len() - i,
        {
            assert(fsv[i as int] == self.facts@[i as int]@);
            let ghost acc = facts_view(ambient_facts@);
            let f = self.facts[i].convert(&mut symbols);
            let ghost fv = f@;
            ambient_facts.push(f);
            assert(facts_view(ambient_facts@) =~= acc.push(fv));
            i += 1;
        }
        let ghost s1 = symbols@;

        let ghost rsv = brules_view(self.rules@);
        let mut ambient_rules: Vec<datalog::Rule> = Vec::new();
        assert(rules_view(ambient_rules@) =~= Seq::<datalog::RuleV>::empty());
        let mut k: usize = 0;
        while k < self.rules.len()
            invariant
                k <= self.rules.len(),
                rsv == brules_view(self.rules@),
                rsv.len() == self.rules@.len(),
                convert_rules_spec(s1, rsv, 0, Seq::empty()) == convert_rules_spec(
                    symbols@,
                    rsv,
                    k as int,
                    rules_view(ambient_rules@),
                ),
            decreases self.rules.len() - k,
        {
            assert(rsv[k as int] == self.rules@[k as int]@);
            let ghost acc = rules_view(ambient_rules@);
            let r = self.rules[k].convert(&mut symbols);
            let ghost rv = r@;
            ambient_rules.push(r);
            assert(rules_view(ambient_rules@) =~= acc.push(rv));
            k += 1;
        }
        let ghost s2 = symbols@;

        let ghost csv = brules_view(self.caveats@);
        let mut ambient_caveats: Vec<datalog::Rule> = Vec::new();
        assert(rules_view(ambient_caveats@) =~= Seq::<datalog::RuleV>::empty());
        let mut m: usize = 0;
        while m < self.caveats.len()
            invariant
                m <= self.caveats.len(),
                csv == brules_view(self.caveats@),
                csv.len() == self.caveats@.len(),
                rules_view(ambient_caveats@).len() == m,
                convert_rules_spec(s2, csv, 0, Seq::empty()) == convert_rules_spec(
                    symbols@,
                    csv,
                    m as int,
                    rules_view(ambient_caveats@),
                ),
            decreases self.caveats.len() - m,
        {
            assert(csv[m as int] == self.caveats@[m as int]@);
            let ghost acc = rules_view(ambient_caveats@);
            let c = self.caveats[m].convert(&mut symbols);
            let ghost cv = c@;
            ambient_caveats.push(c);
            assert(rules_view(ambient_caveats@) =~= acc.push(cv));
            m += 1;
        }

        self.token.check(&symbols, ambient_facts, ambient_rules, ambient_caveats)
    }

    /// `verify`, under the name relying parties often use.
    pub fn authorize(&self) -> (r: Result<(), error::Logic>)
        requires
            self.token@.authority.caveats.len() <= u32::MAX,
            self.token@.blocks.len() < u32::MAX,
            forall|j: int|
                0 <= j < self.token@.blocks.len() ==> (#[trigger] self.token@.blocks[j]).caveats.len()
                    <= u32::MAX,
            self.caveats@.len() <= u32::MAX,
        ensures
            error::result_view(r) == verify_spec(
                self.token@,
                bfacts_view(self.facts@),
                brules_view(self.rules@),
                brules_view(self.caveats@),
            ),
    {
        self.verify()
    }
}

} // verus!
