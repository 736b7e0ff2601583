//! The un-interned, human-readable form of the logic language, and the pure
//! constructors used both to author a token's authority facts and to author
//! verification-time ambient context. `convert` interns every name into a
//! symbol table, yielding the engine-level form.
use vstd::prelude::*;
use crate::datalog;
use crate::datalog::{
    constraints_view, intern_spec, Constraint, ConstraintV, FactV, IdV, PredicateV, RuleV,
    SymbolTable,
};

verus! {

/// An un-interned atom: symbols still carry their names.
pub enum Atom {
    Symbol(String),
    Variable(u32),
    Integer(i64),
    Str(String),
    Date(u64),
}

/// Model of an un-interned atom.
#[verifier::ext_equal]
pub enum AtomV {
    Symbol(Seq<char>),
    Variable(u32),
    Integer(i64),
    Str(Seq<char>),
    Date(u64),
}

impl View for Atom {
    type V = AtomV;

    open spec fn view(&self) -> AtomV {
        match self {
            Atom::Symbol(s) => AtomV::Symbol(s@),
            Atom::Variable(v) => AtomV::Variable(*v),
            Atom::Integer(i) => AtomV::Integer(*i),
            Atom::Str(s) => AtomV::Str(s@),
            Atom::Date(d) => AtomV::Date(*d),
        }
    }
}

impl Clone for Atom {
    fn clone(&self) -> (r: Self)
        ensures
            r@ == self@,
    {
        match self {
            Atom::Symbol(s) => Atom::Symbol(s.clone()),
            Atom::Variable(v) => Atom::Variable(*v),
            Atom::Integer(i) => Atom::Integer(*i),
            Atom::Str(s) => Atom::Str(s.clone()),
            Atom::Date(d) => Atom::Date(*d),
        }
    }
}

/// The models of a list of un-interned atoms.
pub open spec fn atoms_view(s: Seq<Atom>) -> Seq<AtomV> {
    s.map_values(|x: Atom| x@)
}

/// An un-interned predicate: a name and its arguments.
pub struct Predicate {
    pub name: String,
    pub ids: Vec<Atom>,
}

/// Model of an un-interned predicate.
#[verifier::ext_equal]
pub struct BuilderPredicateV {
    pub name: Seq<char>,
    pub ids: Seq<AtomV>,
}

impl View for Predicate {
    type V = BuilderPredicateV;

    open spec fn view(&self) -> BuilderPredicateV {
        BuilderPredicateV { name: self.name@, ids: atoms_view(self.ids@) }
    }
}

impl Clone for Predicate {
    fn clone(&self) -> (r: Self)
        ensures
            r@ == self@,
    {
        let mut ids: Vec<Atom> = Vec::new();
        let mut i: usize = 0;
        while i < self.ids.len()
            invariant
                i <= self.ids.len(),
                ids@.len() == i,
                forall|j: int| 0 <= j < i ==> ids@[j]@ == self.ids@[j]@,
            decreases self.ids.len() - i,
        {
            ids.push(self.ids[i].clone());
            i += 1;
        }
        let r = Predicate { name: self.name.clone(), ids };
        assert(r@ =~= self@);
        r
    }
}

/// The models of a list of un-interned predicates.
pub open spec fn bpreds_view(s: Seq<Predicate>) -> Seq<BuilderPredicateV> {
    s.map_values(|p: Predicate| p@)
}

/// An un-interned fact. The caller is responsible that no atom is a
/// variable.
pub struct Fact(pub Predicate);

impl View for Fact {
    type V = BuilderPredicateV;

    open spec fn view(&self) -> BuilderPredicateV {
        self.0@
    }
}

impl Clone for Fact {
    fn clone(&self) -> (r: Self)
        ensures
            r@ == self@,
    {
        Fact(self.0.clone())
    }
}

/// The models of a list of un-interned facts.
pub open spec fn bfacts_view(s: Seq<Fact>) -> Seq<BuilderPredicateV> {
    s.map_values(|f: Fact| f@)
}

/// An un-interned rule: head, body, constraints. Used as a caveat it is
/// only tested for satisfiability.
pub struct Rule(pub Predicate, pub Vec<Predicate>, pub Vec<Constraint>);

/// Model of an un-interned rule.
#[verifier::ext_equal]
pub struct BuilderRuleV {
    pub head: BuilderPredicateV,
    pub body: Seq<BuilderPredicateV>,
    pub constraints: Seq<ConstraintV>,
}

impl View for Rule {
    type V = BuilderRuleV;

    open spec fn view(&self) -> BuilderRuleV {
        BuilderRuleV {
            head: self.0@,
            body: bpreds_view(self.1@),
            constraints: constraints_view(self.2@),
        }
    }
}

impl Clone for Rule {
    fn clone(&self) -> (r: Self)
        ensures
            r@ == self@,
    {
        let mut body: Vec<Predicate> = Vec::new();
        let mut i: usize = 0;
        while i < self.1.len()
            invariant
                i <= self.1.len(),
                body@.len() == i,
                forall|j: int| 0 <= j < i ==> body@[j]@ == self.1@[j]@,
            decreases self.1.len() - i,
        {
            body.push(self.1[i].clone());
            i += 1;
        }
        let mut constraints: Vec<Constraint> = Vec::new();
        let mut k: usize = 0;
        while k < self.2.len()
            invariant
                k <= self.2.len(),
                constraints@.len() == k,
                forall|j: int| 0 <= j < k ==> constraints@[j]@ == self.2@[j]@,
            decreases self.2.len() - k,
        {
            constraints.push(self.2[k].clone());
            k += 1;
        }
        let r = Rule(self.0.clone(), body, constraints);
        assert(crate::builder::bpreds_view(r.1@) =~= crate::builder::bpreds_view(self.1@));
        assert(constraints_view(r.2@) =~= constraints_view(self.2@));
        assert(r@ =~= self@);
        r
    }
}

/// The models of a list of un-interned rules.
pub open spec fn brules_view(s: Seq<Rule>) -> Seq<BuilderRuleV> {
    s.map_values(|r: Rule| r@)
}

/// A symbol atom, named by open text but interned to a closed vocabulary.
pub fn symbol(name: &str) -> (r: Atom)
    ensures
        r@ == AtomV::Symbol(name@),
{
    Atom::Symbol(name.to_owned())
}

/// Shorthand for `symbol`.
pub fn s(name: &str) -> (r: Atom)
    ensures
        r@ == AtomV::Symbol(name@),
{
    symbol(name)
}

/// A free-text atom, for open-ended values such as paths.
pub fn string(value: &str) -> (r: Atom)
    ensures
        r@ == AtomV::Str(value@),
{
    Atom::Str(value.to_owned())
}

/// An integer atom.
pub fn integer(value: i64) -> (r: Atom)
    ensures
        r@ == AtomV::Integer(value),
{
    Atom::Integer(value)
}

/// A date atom: seconds since the fixed epoch.
pub fn date(seconds: u64) -> (r: Atom)
    ensures
        r@ == AtomV::Date(seconds),
{
    Atom::Date(seconds)
}

/// A variable atom, legal only inside rule heads and bodies.
pub fn variable(index: u32) -> (r: Atom)
    ensures
        r@ == AtomV::Variable(index),
{
    Atom::Variable(index)
}

/// Copies a slice of atoms.
fn copy_atoms(ids: &[Atom]) -> (r: Vec<Atom>)
    ensures
        atoms_view(r@) == atoms_view(ids@),
{
    let mut r: Vec<Atom> = Vec::new();
    let mut i: usize = 0;
    while i < ids.len()
        invariant
            i <= ids@.len(),
            r@.len() == i,
            forall|j: int| 0 <= j < i ==> r@[j]@ == ids@[j]@,
        decreases ids@.len() - i,
    {
        r.push(ids[i].clone());
        i += 1;
    }
    assert(atoms_view(r@) =~= atoms_view(ids@));
    r
}

/// A predicate with the given name and arguments.
pub fn pred(name: &str, ids: &[Atom]) -> (r: Predicate)
    ensures
        r@ == (BuilderPredicateV { name: name@, ids: atoms_view(ids@) }),
{
    let r = Predicate { name: name.to_owned(), ids: copy_atoms(ids) };
    assert(r@ =~= BuilderPredicateV { name: name@, ids: atoms_view(ids@) });
    r
}

/// A fact with the given name and arguments.
pub fn fact(name: &str, ids: &[Atom]) -> (r: Fact)
    ensures
        r@ == (BuilderPredicateV { name: name@, ids: atoms_view(ids@) }),
{
    Fact(pred(name, ids))
}

/// Copies a slice of predicates.
fn copy_preds(ps: &[Predicate]) -> (r: Vec<Predicate>)
    ensures
        bpreds_view(r@) == bpreds_view(ps@),
{
    let mut r: Vec<Predicate> = Vec::new();
    let mut i: usize = 0;
    while i < ps.len()
        invariant
            i <= ps@.len(),
            r@.len() == i,
            forall|j: int| 0 <= j < i ==> r@[j]@ == ps@[j]@,
        decreases ps@.len() - i,
    {
        r.push(ps[i].clone());
        i += 1;
    }
    assert(bpreds_view(r@) =~= bpreds_view(ps@));
    r
}

/// An unconstrained rule deriving `head_atoms` under `name` from `body`.
pub fn rule(name: &str, head_atoms: &[Atom], body: &[Predicate]) -> (r: Rule)
    ensures
        r@ == (BuilderRuleV {
            head: BuilderPredicateV { name: name@, ids: atoms_view(head_atoms@) },
            body: bpreds_view(body@),
            constraints: Seq::empty(),
        }),
{
    let r = Rule(pred(name, head_atoms), copy_preds(body), Vec::new());
    assert(constraints_view(r.2@) =~= Seq::<ConstraintV>::empty());
    assert(r@ =~= BuilderRuleV {
        head: BuilderPredicateV { name: name@, ids: atoms_view(head_atoms@) },
        body: bpreds_view(body@),
        constraints: Seq::empty(),
    });
    r
}

/// A rule whose bindings must additionally pass every given constraint.
pub fn constrained_rule(
    name: &str,
    head_atoms: &[Atom],
    body: &[Predicate],
    constraints: &[Constraint],
) -> (r: Rule)
    ensures
        r@ == (BuilderRuleV {
            head: BuilderPredicateV { name: name@, ids: atoms_view(head_atoms@) },
            body: bpreds_view(body@),
            constraints: constraints_view(constraints@),
        }),
{
    let mut cs: Vec<Constraint> = Vec::new();
    let mut i: usize = 0;
    while i < constraints.len()
        invariant
            i <= constraints@.len(),
            cs@.len() == i,
            forall|j: int| 0 <= j < i ==> cs@[j]@ == constraints@[j]@,
        decreases constraints@.len() - i,
    {
        cs.push(constraints[i].clone());
        i += 1;
    }
    let r = Rule(pred(name, head_atoms), copy_preds(body), cs);
    assert(constraints_view(r.2@) =~= constraints_view(constraints@));
    assert(r@ =~= BuilderRuleV {
        head: BuilderPredicateV { name: name@, ids: atoms_view(head_atoms@) },
        body: bpreds_view(body@),
        constraints: constraints_view(constraints@),
    });
    r
}

/// What interning one atom does to the table, and the interned atom.
pub open spec fn convert_atom_spec(syms: Seq<Seq<char>>, a: AtomV) -> (Seq<Seq<char>>, IdV) {
    match a {
        AtomV::Symbol(s) => {
            let (s2, id) = intern_spec(syms, s);
            (s2, IdV::Symbol(id))
        },
        AtomV::Variable(v) => (syms, IdV::Variable(v)),
        AtomV::Integer(i) => (syms, IdV::Integer(i)),
        AtomV::Str(s) => (syms, IdV::Str(s)),
        AtomV::Date(d) => (syms, IdV::Date(d)),
    }
}

/// Interning a list of atoms from position `i` on, accumulating into `acc`.
pub open spec fn convert_atoms_spec(
    syms: Seq<Seq<char>>,
    ids: Seq<AtomV>,
    i: int,
    acc: Seq<IdV>,
) -> (Seq<Seq<char>>, Seq<IdV>)
    decreases ids.len() - i,
{
    if i < 0 || i >= ids.len() {
        (syms, acc)
    } else {
        let (s2, x) = convert_atom_spec(syms, ids[i]);
        convert_atoms_spec(s2, ids, i + 1, acc.push(x))
    }
}

/// What converting a predicate does: its name and its symbol atoms are
/// interned, in order, the name first.
pub open spec fn convert_pred_spec(syms: Seq<Seq<char>>, p: BuilderPredicateV) -> (
    Seq<Seq<char>>,
    PredicateV,
) {
    let (s1, nid) = intern_spec(syms, p.name);
    let (s2, ids) = convert_atoms_spec(s1, p.ids, 0, Seq::empty());
    (s2, PredicateV { name: nid, ids })
}

/// What converting a fact does.
pub open spec fn convert_fact_spec(syms: Seq<Seq<char>>, f: BuilderPredicateV) -> (
    Seq<Seq<char>>,
    FactV,
) {
    let (s2, p) = convert_pred_spec(syms, f);
    (s2, FactV { name: p.name, ids: p.ids })
}

/// Converting a list of predicates from position `i` on.
pub open spec fn convert_preds_spec(
    syms: Seq<Seq<char>>,
    ps: Seq<BuilderPredicateV>,
    i: int,
    acc: Seq<PredicateV>,
) -> (Seq<Seq<char>>, Seq<PredicateV>)
    decreases ps.len() - i,
{
    if i < 0 || i >= ps.len() {
        (syms, acc)
    } else {
        let (s2, p) = convert_pred_spec(syms, ps[i]);
        convert_preds_spec(s2, ps, i + 1, acc.push(p))
    }
}

/// What converting a rule does: head first, then the body; constraints are
/// already integer-level and pass through unchanged.
pub open spec fn convert_rule_spec(syms: Seq<Seq<char>>, r: BuilderRuleV) -> (
    Seq<Seq<char>>,
    RuleV,
) {
    let (s1, head) = convert_pred_spec(syms, r.head);
    let (s2, body) = convert_preds_spec(s1, r.body, 0, Seq::empty());
    (s2, RuleV { head, body, constraints: r.constraints })
}

/// Converting a list of facts from position `i` on, threading the table.
pub open spec fn convert_facts_spec(
    syms: Seq<Seq<char>>,
    fs: Seq<BuilderPredicateV>,
    i: int,
    acc: Seq<FactV>,
) -> (Seq<Seq<char>>, Seq<FactV>)
    decreases fs.len() - i,
{
    if i < 0 || i >= fs.len() {
        (syms, acc)
    } else {
        let (s2, f) = convert_fact_spec(syms, fs[i]);
        convert_facts_spec(s2, fs, i + 1, acc.push(f))
    }
}

/// Converting a list of rules from position `i` on, threading the table.
pub open spec fn convert_rules_spec(
    syms: Seq<Seq<char>>,
    rs: Seq<BuilderRuleV>,
    i: int,
    acc: Seq<RuleV>,
) -> (Seq<Seq<char>>, Seq<RuleV>)
    decreases rs.len() - i,
{
    if i < 0 || i >= rs.len() {
        (syms, acc)
    } else {
        let (s2, r) = convert_rule_spec(syms, rs[i]);
        convert_rules_spec(s2, rs, i + 1, acc.push(r))
    }
}

/// Interns one atom into `symbols`.
fn convert_atom(a: &Atom, symbols: &mut SymbolTable) -> (r: datalog::ID)
    ensures
        (final(symbols)@, r@) == convert_atom_spec(old(symbols)@, a@),
{
    match a {
        Atom::Symbol(s) => datalog::ID::Symbol(symbols.insert(s.as_str())),
        Atom::Variable(v) => datalog::ID::Variable(*v),
        Atom::Integer(i) => datalog::ID::Integer(*i),
        Atom::Str(s) => datalog::ID::Str(s.clone()),
        Atom::Date(d) => datalog::ID::Date(*d),
    }
}

/// Interns a predicate: name first, then each atom in order.
fn convert_pred(p: &Predicate, symbols: &mut SymbolTable) -> (r: datalog::Predicate)
    ensures
        (final(symbols)@, r@) == convert_pred_spec(old(symbols)@, p@),
{
    let ghost pv = p@;
    let name = symbols.insert(p.name.as_str());
    let ghost s1 = symbols@;
    let mut ids: Vec<datalog::ID> = Vec::new();
    assert(datalog::ids_view(ids@) =~= Seq::<IdV>::empty());
    let mut i: usize = 0;
    while i < p.ids.len()
        invariant
            i <= p.ids.len(),
            pv == p@,
            pv.ids.len() == p.ids@.len(),
            convert_atoms_spec(s1, pv.ids, 0, Seq::empty()) == convert_atoms_spec(
                symbols@,
                pv.ids,
                i as int,
                datalog::ids_view(ids@),
            ),
        decreases p.ids.len() - i,
    {
        assert(pv.ids[i as int] == p.ids@[i as int]@);
        let ghost accv = datalog::ids_view(ids@);
        let x = convert_atom(&p.ids[i], symbols);
        let ghost xv = x@;
        ids.push(x);
        assert(datalog::ids_view(ids@) =~= accv.push(xv));
        i += 1;
    }
    datalog::Predicate { name, ids }
}

impl Fact {
    /// Interns this fact into `symbols`, yielding the engine-level fact.
    pub fn convert(&self, symbols: &mut SymbolTable) -> (r: datalog::Fact)
        ensures
            (final(symbols)@, r@) == convert_fact_spec(old(symbols)@, self@),
    {
        let p = convert_pred(&self.0, symbols);
        let r = datalog::Fact { predicate: p };
        assert(r@ =~= FactV { name: p@.name, ids: p@.ids });
        r
    }
}

impl Rule {
    /// Interns this rule into `symbols`, yielding the engine-level rule.
    pub fn convert(&self, symbols: &mut SymbolTable) -> (r: datalog::Rule)
        ensures
            (final(symbols)@, r@) == convert_rule_spec(old(symbols)@, self@),
    {
        let ghost rv = self@;
        let head = convert_pred(&self.0, symbols);
        let ghost s1 = symbols@;
        let mut body: Vec<datalog::Predicate> = Vec::new();
        assert(datalog::preds_view(body@) =~= Seq::<PredicateV>::empty());
        let mut i: usize = 0;
        while i < self.1.len()
            invariant
                i <= self.1.len(),
                rv == self@,
                rv.body.len() == self.1@.len(),
                convert_preds_spec(s1, rv.body, 0, Seq::empty()) == convert_preds_spec(
                    symbols@,
                    rv.body,
                    i as int,
                    datalog::preds_view(body@),
                ),
            decreases self.1.len() - i,
        {
            assert(rv.body[i as int] == self.1@[i as int]@);
            let ghost accv = datalog::preds_view(body@);
            let p = convert_pred(&self.1[i], symbols);
            let ghost pv = p@;
            body.push(p);
            assert(datalog::preds_view(body@) =~= accv.push(pv));
            i += 1;
        }
        let mut constraints: Vec<Constraint> = Vec::new();
        let mut k: usize = 0;
        while k < self.2.len()
            invariant
                k <= self.2.len(),
                constraints@.len() == k,
                forall|j: int| 0 <= j < k ==> constraints@[j]@ == self.2@[j]@,
            decreases self.2.len() - k,
        {
            constraints.push(self.2[k].clone());
            k += 1;
        }
        assert(constraints_view(constraints@) =~= constraints_view(self.2@));
        let r = datalog::Rule { head, body, constraints };
        assert(r@ =~= (convert_rule_spec(old(symbols)@, self@).1));
        r
    }
}

} // verus!
