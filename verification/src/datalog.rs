//! Interned representation of the logic language: atoms, predicates, facts,
//! rules and constraints, the symbol table that maps names to compact ids,
//! and the fixpoint engine that derives facts and answers caveat queries.
use vstd::prelude::*;
use vstd::string::StrSliceExecFns;

verus! {

/// Whether two string slices hold the same characters.
pub fn str_eq(a: &str, b: &str) -> (r: bool)
    ensures
        r == (a@ == b@),
{
    let la = a.unicode_len();
    let lb = b.unicode_len();
    if la != lb {
        assert(a@ != b@);
        return false;
    }
    let mut i: usize = 0;
    while i < la
        invariant
            i <= la,
            la == a@.len(),
            la == b@.len(),
            forall|j: int| 0 <= j < i ==> a@[j] == b@[j],
        decreases la - i,
    {
        if a.get_char(i) != b.get_char(i) {
            return false;
        }
        i += 1;
    }
    assert(a@ =~= b@);
    true
}

/// An atom of the interned logic language. Symbols are interned string ids;
/// variables appear only inside rule bodies and heads, never in ground facts.
pub enum ID {
    Symbol(u64),
    Variable(u32),
    Integer(i64),
    Str(String),
    Date(u64),
}

/// Mathematical model of an atom: strings are taken to their character
/// sequences so that equality of models is equality of contents.
#[verifier::ext_equal]
pub enum IdV {
    Symbol(u64),
    Variable(u32),
    Integer(i64),
    Str(Seq<char>),
    Date(u64),
}

impl View for ID {
    type V = IdV;

    open spec fn view(&self) -> IdV {
        match self {
            ID::Symbol(s) => IdV::Symbol(*s),
            ID::Variable(v) => IdV::Variable(*v),
            ID::Integer(i) => IdV::Integer(*i),
            ID::Str(s) => IdV::Str(s@),
            ID::Date(d) => IdV::Date(*d),
        }
    }
}

/// The models of a list of atoms.
pub open spec fn ids_view(s: Seq<ID>) -> Seq<IdV> {
    s.map_values(|x: ID| x@)
}

impl Clone for ID {
    fn clone(&self) -> (r: Self)
        ensures
            r@ == self@,
    {
        match self {
            ID::Symbol(s) => ID::Symbol(*s),
            ID::Variable(v) => ID::Variable(*v),
            ID::Integer(i) => ID::Integer(*i),
            ID::Str(s) => ID::Str(s.clone()),
            ID::Date(d) => ID::Date(*d),
        }
    }
}

/// Whether two atoms have the same model.
pub fn id_eq(a: &ID, b: &ID) -> (r: bool)
    ensures
        r == (a@ == b@),
{
    match (a, b) {
        (ID::Symbol(x), ID::Symbol(y)) => x == y,
        (ID::Variable(x), ID::Variable(y)) => x == y,
        (ID::Integer(x), ID::Integer(y)) => x == y,
        (ID::Str(x), ID::Str(y)) => x.eq(y),
        (ID::Date(x), ID::Date(y)) => x == y,
        _ => false,
    }
}

/// Copies a list of atoms, preserving the models.
pub fn copy_ids(v: &Vec<ID>) -> (r: Vec<ID>)
    ensures
        ids_view(r@) == ids_view(v@),
{
    let mut r: Vec<ID> = Vec::new();
    let mut i: usize = 0;
    while i < v.len()
        invariant
            i <= v.len(),
            r@.len() == i,
            forall|j: int| 0 <= j < i ==> r@[j]@ == v@[j]@,
        decreases v.len() - i,
    {
        r.push(v[i].clone());
        i += 1;
    }
    assert(ids_view(r@) =~= ids_view(v@));
    r
}

/// A named tuple of atoms.
pub struct Predicate {
    pub name: u64,
    pub ids: Vec<ID>,
}

/// Model of a predicate.
#[verifier::ext_equal]
pub struct PredicateV {
    pub name: u64,
    pub ids: Seq<IdV>,
}

impl View for Predicate {
    type V = PredicateV;

    open spec fn view(&self) -> PredicateV {
        PredicateV { name: self.name, ids: ids_view(self.ids@) }
    }
}

impl Clone for Predicate {
    fn clone(&self) -> (r: Self)
        ensures
            r@ == self@,
    {
        let r = Predicate { name: self.name, ids: copy_ids(&self.ids) };
        assert(r@ =~= self@);
        r
    }
}

/// A fact: a predicate that holds. Facts asserted or derived by the engine
/// are ground (no variable atoms).
pub struct Fact {
    pub predicate: Predicate,
}

/// Model of a fact.
#[verifier::ext_equal]
pub struct FactV {
    pub name: u64,
    pub ids: Seq<IdV>,
}

impl View for Fact {
    type V = FactV;

    open spec fn view(&self) -> FactV {
        FactV { name: self.predicate.name, ids: self.predicate@.ids }
    }
}

impl Clone for Fact {
    fn clone(&self) -> (r: Self)
        ensures
            r@ == self@,
    {
        let r = Fact { predicate: self.predicate.clone() };
        assert(r@ =~= self@);
        r
    }
}

/// Whether two atom lists have the same models, position by position.
fn ids_eq(a: &Vec<ID>, b: &Vec<ID>) -> (r: bool)
    ensures
        r == (ids_view(a@) == ids_view(b@)),
{
    if a.len() != b.len() {
        assert(ids_view(a@).len() != ids_view(b@).len());
        return false;
    }
    let mut i: usize = 0;
    while i < a.len()
        invariant
            i <= a.len(),
            a@.len() == b@.len(),
            forall|j: int| 0 <= j < i ==> a@[j]@ == b@[j]@,
        decreases a.len() - i,
    {
        if !id_eq(&a[i], &b[i]) {
            assert(ids_view(a@)[i as int] != ids_view(b@)[i as int]);
            return false;
        }
        i += 1;
    }
    assert(ids_view(a@) =~= ids_view(b@));
    true
}

/// Whether two facts have the same model.
pub fn fact_eq(a: &Fact, b: &Fact) -> (r: bool)
    ensures
        r == (a@ == b@),
{
    let r = a.predicate.name == b.predicate.name && ids_eq(&a.predicate.ids, &b.predicate.ids);
    if r {
        assert(a@ =~= b@);
    }
    r
}

/// An integer constraint on a candidate variable binding. `NotIn` holds iff
/// the bound integer is absent from the given list; it is how revocation
/// lists are enforced.
pub enum IntConstraint {
    NotIn(Vec<i64>),
}

/// The kind of a constraint. Only integer constraints exist at present.
pub enum ConstraintKind {
    Int(IntConstraint),
}

/// A constraint attached to a rule: the index of the variable it restricts
/// and the test applied to that variable's bound value.
pub struct Constraint {
    pub id: u32,
    pub kind: ConstraintKind,
}

/// Model of a constraint: the restricted variable and the excluded integers.
#[verifier::ext_equal]
pub struct ConstraintV {
    pub id: u32,
    pub not_in: Seq<i64>,
}

impl View for Constraint {
    type V = ConstraintV;

    open spec fn view(&self) -> ConstraintV {
        match &self.kind {
            ConstraintKind::Int(c) => match c {
                IntConstraint::NotIn(v) => ConstraintV { id: self.id, not_in: v@ },
            },
        }
    }
}

impl Clone for Constraint {
    fn clone(&self) -> (r: Self)
        ensures
            r@ == self@,
    {
        match &self.kind {
            ConstraintKind::Int(c) => match c {
                IntConstraint::NotIn(v) => {
                    let mut w: Vec<i64> = Vec::new();
                    let mut i: usize = 0;
                    while i < v.len()
                        invariant
                            i <= v.len(),
                            w@ == v@.subrange(0, i as int),
                        decreases v.len() - i,
                    {
                        w.push(v[i]);
                        assert(w@ =~= v@.subrange(0, (i + 1) as int));
                        i += 1;
                    }
                    assert(w@ =~= v@);
                    Constraint { id: self.id, kind: ConstraintKind::Int(IntConstraint::NotIn(w)) }
                },
            },
        }
    }
}

/// The models of a list of constraints.
pub open spec fn constraints_view(s: Seq<Constraint>) -> Seq<ConstraintV> {
    s.map_values(|c: Constraint| c@)
}

/// A rule: its head is instantiated for every binding of the body variables
/// that matches the fact set and passes every constraint. A rule used as a
/// caveat is only tested for satisfiability; its head asserts nothing.
pub struct Rule {
    pub head: Predicate,
    pub body: Vec<Predicate>,
    pub constraints: Vec<Constraint>,
}

/// Model of a rule.
#[verifier::ext_equal]
pub struct RuleV {
    pub head: PredicateV,
    pub body: Seq<PredicateV>,
    pub constraints: Seq<ConstraintV>,
}

/// The models of a list of predicates.
pub open spec fn preds_view(s: Seq<Predicate>) -> Seq<PredicateV> {
    s.map_values(|p: Predicate| p@)
}

impl View for Rule {
    type V = RuleV;

    open spec fn view(&self) -> RuleV {
        RuleV {
            head: self.head@,
            body: preds_view(self.body@),
            constraints: constraints_view(self.constraints@),
        }
    }
}

impl Clone for Rule {
    fn clone(&self) -> (r: Self)
        ensures
            r@ == self@,
    {
        let mut body: Vec<Predicate> = Vec::new();
        let mut i: usize = 0;
        while i < self.body.len()
            invariant
                i <= self.body.len(),
                body@.len() == i,
                forall|j: int| 0 <= j < i ==> body@[j]@ == self.body@[j]@,
            decreases self.body.len() - i,
        {
            body.push(self.body[i].clone());
            i += 1;
        }
        let mut constraints: Vec<Constraint> = Vec::new();
        let mut k: usize = 0;
        while k < self.constraints.len()
            invariant
                k <= self.constraints.len(),
                constraints@.len() == k,
                forall|j: int| 0 <= j < k ==> constraints@[j]@ == self.constraints@[j]@,
            decreases self.constraints.len() - k,
        {
            constraints.push(self.constraints[k].clone());
            k += 1;
        }
        let r = Rule { head: self.head.clone(), body, constraints };
        assert(preds_view(r.body@) =~= preds_view(self.body@));
        assert(constraints_view(r.constraints@) =~= constraints_view(self.constraints@));
        assert(r@ =~= self@);
        r
    }
}

/// The models of a list of facts.
pub open spec fn facts_view(s: Seq<Fact>) -> Seq<FactV> {
    s.map_values(|f: Fact| f@)
}

/// The models of a list of rules.
pub open spec fn rules_view(s: Seq<Rule>) -> Seq<RuleV> {
    s.map_values(|r: Rule| r@)
}

/// The append-only bidirectional mapping between names and integer ids.
/// A name's id is its index; ids are never reused or reassigned.
pub struct SymbolTable {
    pub symbols: Vec<String>,
}

/// Model of a symbol table: the sequence of interned names, oldest first.
pub open spec fn symbols_view(s: Seq<String>) -> Seq<Seq<char>> {
    s.map_values(|x: String| x@)
}

impl View for SymbolTable {
    type V = Seq<Seq<char>>;

    open spec fn view(&self) -> Seq<Seq<char>> {
        symbols_view(self.symbols@)
    }
}

/// The index of `name` among `syms`, scanning from `i` on.
pub open spec fn find_symbol(syms: Seq<Seq<char>>, name: Seq<char>, i: int) -> Option<int>
    decreases syms.len() - i,
{
    if i < 0 || i >= syms.len() {
        None
    } else if syms[i] == name {
        Some(i)
    } else {
        find_symbol(syms, name, i + 1)
    }
}

/// What `insert` does: an already-interned name keeps its first id and
/// leaves the table unchanged; a new name is appended and gets the next id.
pub open spec fn intern_spec(syms: Seq<Seq<char>>, name: Seq<char>) -> (Seq<Seq<char>>, u64) {
    match find_symbol(syms, name, 0) {
        Some(j) => (syms, j as u64),
        None => (syms.push(name), syms.len() as u64),
    }
}

impl SymbolTable {
    /// A table with no names interned yet.
    pub fn new() -> (r: SymbolTable)
        ensures
            r@ == Seq::<Seq<char>>::empty(),
    {
        let r = SymbolTable { symbols: Vec::new() };
        assert(r@ =~= Seq::<Seq<char>>::empty());
        r
    }

    /// Interns `name`: returns its existing id, or assigns the next unused
    /// id and records the mapping.
    pub fn insert(&mut self, name: &str) -> (id: u64)
        ensures
            (final(self)@, id) == intern_spec(old(self)@, name@),
    {
        let ghost orig = self@;
        let mut i: usize = 0;
        while i < self.symbols.len()
            invariant
                i <= self.symbols.len(),
                self@ == orig,
                forall|j: int| 0 <= j < i ==> orig[j] != name@,
                find_symbol(orig, name@, 0) == find_symbol(orig, name@, i as int),
            decreases self.symbols.len() - i,
        {
            if str_eq(self.symbols[i].as_str(), name) {
                assert(find_symbol(orig, name@, i as int) == Some(i as int));
                return i as u64;
            }
            assert(find_symbol(orig, name@, i as int) == find_symbol(orig, name@, i + 1));
            i += 1;
        }
        assert(find_symbol(orig, name@, i as int) is None);
        let id = self.symbols.len() as u64;
        self.symbols.push(name.to_owned());
        assert(self@ =~= orig.push(name@));
        id
    }

    /// The name behind an id, or `None` for an id never assigned.
    pub fn resolve(&self, id: u64) -> (r: Option<&String>)
        ensures
            match r {
                Some(s) => id < self@.len() && s@ == self@[id as int],
                None => id >= self@.len(),
            },
    {
        if id < self.symbols.len() as u64 {
            Some(&self.symbols[id as usize])
        } else {
            None
        }
    }
}

/// Model of a candidate variable binding: pairs of variable index and bound
/// atom, in the order the variables were first bound. A variable occurs at
/// most once; `lookup` takes the first occurrence.
pub open spec fn binding_view(b: Seq<(u32, ID)>) -> Seq<(u32, IdV)> {
    b.map_values(|p: (u32, ID)| (p.0, p.1@))
}

/// The models of a list of bindings.
pub open spec fn bindings_views(s: Seq<Vec<(u32, ID)>>) -> Seq<Seq<(u32, IdV)>> {
    s.map_values(|v: Vec<(u32, ID)>| binding_view(v@))
}

/// The value bound to variable `v`, scanning from entry `i` on.
pub open spec fn lookup_from(b: Seq<(u32, IdV)>, v: u32, i: int) -> Option<IdV>
    decreases b.len() - i,
{
    if i < 0 || i >= b.len() {
        None
    } else if b[i].0 == v {
        Some(b[i].1)
    } else {
        lookup_from(b, v, i + 1)
    }
}

/// The value bound to variable `v`, if any.
pub open spec fn lookup(b: Seq<(u32, IdV)>, v: u32) -> Option<IdV> {
    lookup_from(b, v, 0)
}

/// The value bound to variable `v` in `b`, if any.
pub fn binding_get(b: &Vec<(u32, ID)>, v: u32) -> (r: Option<ID>)
    ensures
        match r {
            Some(x) => lookup(binding_view(b@), v) == Some(x@),
            None => lookup(binding_view(b@), v) is None,
        },
{
    let ghost bv = binding_view(b@);
    let mut i: usize = 0;
    while i < b.len()
        invariant
            i <= b.len(),
            bv == binding_view(b@),
            lookup(bv, v) == lookup_from(bv, v, i as int),
        decreases b.len() - i,
    {
        if b[i].0 == v {
            return Some(b[i].1.clone());
        }
        i += 1;
    }
    None
}

/// Copies a binding, preserving the model.
fn copy_binding(b: &Vec<(u32, ID)>) -> (r: Vec<(u32, ID)>)
    ensures
        binding_view(r@) == binding_view(b@),
{
    let mut r: Vec<(u32, ID)> = Vec::new();
    let mut i: usize = 0;
    while i < b.len()
        invariant
            i <= b.len(),
            r@.len() == i,
            forall|j: int| 0 <= j < i ==> r@[j].0 == b@[j].0 && r@[j].1@ == b@[j].1@,
        decreases b.len() - i,
    {
        let p = (b[i].0, b[i].1.clone());
        r.push(p);
        i += 1;
    }
    assert(binding_view(r@) =~= binding_view(b@));
    r
}

/// Unification of a predicate's atom list against a ground fact's, position
/// `i` onward, under binding `b`: a constant atom must equal the fact's atom;
/// a variable must agree with its bound value, or becomes bound to the
/// fact's atom. Lists of different lengths never unify.
pub open spec fn unify_from(p: Seq<IdV>, f: Seq<IdV>, i: int, b: Seq<(u32, IdV)>) -> Option<
    Seq<(u32, IdV)>,
>
    decreases p.len() - i,
{
    if p.len() != f.len() || i < 0 {
        None
    } else if i >= p.len() {
        Some(b)
    } else {
        match p[i] {
            IdV::Variable(v) => match lookup(b, v) {
                Some(x) => if x == f[i] {
                    unify_from(p, f, i + 1, b)
                } else {
                    None
                },
                None => unify_from(p, f, i + 1, b.push((v, f[i]))),
            },
            _ => if p[i] == f[i] {
                unify_from(p, f, i + 1, b)
            } else {
                None
            },
        }
    }
}

/// What matching predicate `p` against fact `fc` under binding `b` yields:
/// the extended binding, or nothing when they do not match.
pub open spec fn match_pred(p: PredicateV, fc: FactV, b: Seq<(u32, IdV)>) -> Option<
    Seq<(u32, IdV)>,
> {
    if p.name == fc.name {
        unify_from(p.ids, fc.ids, 0, b)
    } else {
        None
    }
}

/// Matches one predicate against one fact, starting from a copy of `b`.
fn match_pred_exec(p: &Predicate, fc: &Fact, b: &Vec<(u32, ID)>) -> (r: Option<Vec<(u32, ID)>>)
    ensures
        match r {
            Some(b2) => match_pred(p@, fc@, binding_view(b@)) == Some(binding_view(b2@)),
            None => match_pred(p@, fc@, binding_view(b@)) is None,
        },
{
    if p.name != fc.predicate.name {
        return None;
    }
    if p.ids.len() != fc.predicate.ids.len() {
        assert(p@.ids.len() != fc@.ids.len());
        return None;
    }
    let ghost pv = p@.ids;
    let ghost fv = fc@.ids;
    let ghost b0 = binding_view(b@);
    let mut cur = copy_binding(b);
    let mut i: usize = 0;
    while i < p.ids.len()
        invariant
            i <= p.ids.len(),
            pv == ids_view(p.ids@),
            fv == ids_view(fc.predicate.ids@),
            pv.len() == fv.len(),
            p.ids@.len() == fc.predicate.ids@.len(),
            p@.name == fc@.name,
            b0 == binding_view(b@),
            unify_from(pv, fv, 0, b0) == unify_from(pv, fv, i as int, binding_view(cur@)),
        decreases p.ids.len() - i,
    {
        assert(pv[i as int] == p.ids@[i as int]@);
        assert(fv[i as int] == fc.predicate.ids@[i as int]@);
        match &p.ids[i] {
            ID::Variable(v) => {
                assert(pv[i as int] == IdV::Variable(*v));
                match binding_get(&cur, *v) {
                    Some(x) => {
                        if !id_eq(&x, &fc.predicate.ids[i]) {
                            assert(unify_from(pv, fv, i as int, binding_view(cur@)) is None);
                            return None;
                        }
                        assert(unify_from(pv, fv, i as int, binding_view(cur@)) == unify_from(
                            pv,
                            fv,
                            i as int + 1,
                            binding_view(cur@),
                        ));
                    },
                    None => {
                        let ghost oldcur = cur@;
                        let bound = (*v, fc.predicate.ids[i].clone());
                        cur.push(bound);
                        proof {
                            assert(cur@ == oldcur.push(bound));
                            assert(binding_view(cur@) =~= binding_view(oldcur).push(
                                (bound.0, bound.1@),
                            ));
                            assert(bound.1@ == fv[i as int]);
                            assert(unify_from(pv, fv, i as int, binding_view(oldcur))
                                == unify_from(pv, fv, i as int + 1, binding_view(cur@)));
                        }
                    },
                }
            },
            other => {
                assert(!(pv[i as int] is Variable));
                if !id_eq(other, &fc.predicate.ids[i]) {
                    assert(unify_from(pv, fv, i as int, binding_view(cur@)) is None);
                    return None;
                }
                assert(unify_from(pv, fv, i as int, binding_view(cur@)) == unify_from(
                    pv,
                    fv,
                    i as int + 1,
                    binding_view(cur@),
                ));
            },
        }
        i += 1;
    }
    Some(cur)
}

/// All full bindings of the body predicates from position `j` on against the
/// fact list, extending `b`, in enumeration order: facts are tried in order
/// for the current predicate, and for each match the rest of the body is
/// explored before the next fact.
pub open spec fn bindings(
    body: Seq<PredicateV>,
    j: int,
    b: Seq<(u32, IdV)>,
    facts: Seq<FactV>,
) -> Seq<Seq<(u32, IdV)>>
    decreases body.len() - j, facts.len() + 1,
{
    if j < 0 || j >= body.len() {
        seq![b]
    } else {
        bindings_scan(body, j, b, facts, 0)
    }
}

/// The bindings contributed by facts `k` onward for body position `j`.
pub open spec fn bindings_scan(
    body: Seq<PredicateV>,
    j: int,
    b: Seq<(u32, IdV)>,
    facts: Seq<FactV>,
    k: int,
) -> Seq<Seq<(u32, IdV)>>
    decreases body.len() - j, facts.len() - k,
{
    if j < 0 || j >= body.len() || k < 0 || k >= facts.len() {
        Seq::empty()
    } else {
        (match match_pred(body[j], facts[k], b) {
            Some(b2) => bindings(body, j + 1, b2, facts),
            None => Seq::empty(),
        }) + bindings_scan(body, j, b, facts, k + 1)
    }
}

/// Enumerates every full binding of `body` from position `j` on.
fn find_bindings(body: &Vec<Predicate>, j: usize, b: Vec<(u32, ID)>, facts: &Vec<Fact>) -> (r: Vec<
    Vec<(u32, ID)>,
>)
    ensures
        bindings_views(r@) == bindings(preds_view(body@), j as int, binding_view(b@), facts_view(facts@)),
    decreases body@.len() - j,
{
    let ghost bodyv = preds_view(body@);
    let ghost factsv = facts_view(facts@);
    let ghost bv = binding_view(b@);
    if j >= body.len() {
        let mut r: Vec<Vec<(u32, ID)>> = Vec::new();
        r.push(b);
        assert(bindings_views(r@) =~= seq![bv]);
        return r;
    }
    let mut out: Vec<Vec<(u32, ID)>> = Vec::new();
    let mut k: usize = 0;
    while k < facts.len()
        invariant
            j < body.len(),
            k <= facts.len(),
            bodyv == preds_view(body@),
            factsv == facts_view(facts@),
            bv == binding_view(b@),
            bindings(bodyv, j as int, bv, factsv) == bindings_views(out@) + bindings_scan(
                bodyv,
                j as int,
                bv,
                factsv,
                k as int,
            ),
        decreases facts.len() - k,
    {
        match match_pred_exec(&body[j], &facts[k], &b) {
            Some(b2) => {
                let mut sub = find_bindings(body, j + 1, b2, facts);
                let ghost subv = bindings_views(sub@);
                let ghost outv = bindings_views(out@);
                out.append(&mut sub);
                assert(bindings_views(out@) =~= outv + subv);
            },
            None => {},
        }
        assert(bindings_scan(bodyv, j as int, bv, factsv, k as int) == (match match_pred(
            bodyv[j as int],
            factsv[k as int],
            bv,
        ) {
            Some(b2) => bindings(bodyv, j as int + 1, b2, factsv),
            None => Seq::empty(),
        }) + bindings_scan(bodyv, j as int, bv, factsv, k as int + 1));
        proof {
            i_step_assoc(
                bindings_views(out@),
                bindings_scan(bodyv, j as int, bv, factsv, k as int + 1),
            );
        }
        k += 1;
    }
    assert(bindings_scan(bodyv, j as int, bv, factsv, facts@.len() as int) =~= Seq::<
        Seq<(u32, IdV)>,
    >::empty());
    assert(bindings_views(out@) + Seq::<Seq<(u32, IdV)>>::empty() =~= bindings_views(out@));
    out
}

/// Sequence concatenation is associative; stated for the loop above.
proof fn i_step_assoc(a: Seq<Seq<(u32, IdV)>>, c: Seq<Seq<(u32, IdV)>>)
    ensures
        forall|m: Seq<Seq<(u32, IdV)>>| (a + m) + c =~= a + (m + c),
{
}

/// Whether binding `b` passes one constraint: the restricted variable must
/// be bound to an integer absent from the excluded list.
pub open spec fn constraint_ok(b: Seq<(u32, IdV)>, c: ConstraintV) -> bool {
    match lookup(b, c.id) {
        Some(x) => match x {
            IdV::Integer(n) => !c.not_in.contains(n),
            _ => false,
        },
        None => false,
    }
}

/// Whether `b` passes every constraint from position `i` on.
pub open spec fn constraints_ok_from(b: Seq<(u32, IdV)>, cs: Seq<ConstraintV>, i: int) -> bool
    decreases cs.len() - i,
{
    if i < 0 || i >= cs.len() {
        true
    } else {
        constraint_ok(b, cs[i]) && constraints_ok_from(b, cs, i + 1)
    }
}

/// Whether `b` passes every constraint.
pub open spec fn constraints_ok(b: Seq<(u32, IdV)>, cs: Seq<ConstraintV>) -> bool {
    constraints_ok_from(b, cs, 0)
}

/// Checks every constraint against a binding.
fn constraints_ok_exec(b: &Vec<(u32, ID)>, cs: &Vec<Constraint>) -> (r: bool)
    ensures
        r == constraints_ok(binding_view(b@), constraints_view(cs@)),
{
    let ghost bv = binding_view(b@);
    let ghost csv = constraints_view(cs@);
    let mut i: usize = 0;
    while i < cs.len()
        invariant
            i <= cs.len(),
            bv == binding_view(b@),
            csv == constraints_view(cs@),
            constraints_ok(bv, csv) == constraints_ok_from(bv, csv, i as int),
        decreases cs.len() - i,
    {
        assert(csv[i as int] == cs@[i as int]@);
        let ok: bool = match binding_get(b, cs[i].id) {
            Some(x) => match &x {
                ID::Integer(n) => {
                    match &cs[i].kind {
                        ConstraintKind::Int(ic) => match ic {
                            IntConstraint::NotIn(set) => {
                                let mut m: usize = 0;
                                let mut found: bool = false;
                                while m < set.len()
                                    invariant
                                        m <= set.len(),
                                        found == exists|q: int| 0 <= q < m && set@[q] == *n,
                                    decreases set.len() - m,
                                {
                                    if set[m] == *n {
                                        found = true;
                                    }
                                    m += 1;
                                }
                                assert(found == set@.contains(*n));
                                !found
                            },
                        },
                    }
                },
                _ => false,
            },
            None => false,
        };
        if !ok {
            assert(!constraint_ok(bv, csv[i as int]));
            return false;
        }
        assert(constraint_ok(bv, csv[i as int]));
        i += 1;
    }
    true
}

/// The head's atom list instantiated under `b`, built left to right from
/// `acc`: constants are kept, variables are replaced by their bound values;
/// an unbound head variable leaves the head uninstantiable.
pub open spec fn subst_from(ids: Seq<IdV>, b: Seq<(u32, IdV)>, i: int, acc: Seq<IdV>) -> Option<
    Seq<IdV>,
>
    decreases ids.len() - i,
{
    if i < 0 {
        None
    } else if i >= ids.len() {
        Some(acc)
    } else {
        match ids[i] {
            IdV::Variable(v) => match lookup(b, v) {
                Some(x) => subst_from(ids, b, i + 1, acc.push(x)),
                None => None,
            },
            x => subst_from(ids, b, i + 1, acc.push(x)),
        }
    }
}

/// The fact a rule's head yields under a full binding, if every head
/// variable is bound.
pub open spec fn head_fact(r: RuleV, b: Seq<(u32, IdV)>) -> Option<FactV> {
    match subst_from(r.head.ids, b, 0, Seq::empty()) {
        Some(ids) => Some(FactV { name: r.head.name, ids }),
        None => None,
    }
}

/// Instantiates a rule head under a binding.
fn head_fact_exec(r: &Rule, b: &Vec<(u32, ID)>) -> (res: Option<Fact>)
    ensures
        match res {
            Some(f) => head_fact(r@, binding_view(b@)) == Some(f@),
            None => head_fact(r@, binding_view(b@)) is None,
        },
{
    let ghost idsv = r@.head.ids;
    let ghost bv = binding_view(b@);
    let mut acc: Vec<ID> = Vec::new();
    assert(ids_view(acc@) =~= Seq::<IdV>::empty());
    let mut i: usize = 0;
    while i < r.head.ids.len()
        invariant
            i <= r.head.ids.len(),
            idsv == ids_view(r.head.ids@),
            bv == binding_view(b@),
            subst_from(idsv, bv, 0, Seq::empty()) == subst_from(idsv, bv, i as int, ids_view(acc@)),
        decreases r.head.ids.len() - i,
    {
        assert(idsv[i as int] == r.head.ids@[i as int]@);
        let ghost oldacc = ids_view(acc@);
        match &r.head.ids[i] {
            ID::Variable(v) => {
                assert(idsv[i as int] == IdV::Variable(*v));
                match binding_get(b, *v) {
                    Some(x) => {
                        let ghost xv = x@;
                        acc.push(x);
                        proof {
                            assert(ids_view(acc@) =~= oldacc.push(xv));
                            assert(subst_from(idsv, bv, i as int, oldacc) == subst_from(
                                idsv,
                                bv,
                                i as int + 1,
                                oldacc.push(xv),
                            ));
                        }
                    },
                    None => {
                        assert(subst_from(idsv, bv, i as int, oldacc) is None);
                        return None;
                    },
                }
            },
            other => {
                assert(!(idsv[i as int] is Variable));
                acc.push(other.clone());
                proof {
                    assert(ids_view(acc@) =~= oldacc.push(idsv[i as int]));
                    assert(subst_from(idsv, bv, i as int, oldacc) == subst_from(
                        idsv,
                        bv,
                        i as int + 1,
                        oldacc.push(idsv[i as int]),
                    ));
                }
            },
        }
        i += 1;
    }
    Some(Fact { predicate: Predicate { name: r.head.name, ids: acc } })
}

/// The facts a rule yields from the bindings `bs[i..]`: for each binding
/// that passes every constraint, the instantiated head, in order.
pub open spec fn query_collect(r: RuleV, bs: Seq<Seq<(u32, IdV)>>, i: int) -> Seq<FactV>
    decreases bs.len() - i,
{
    if i < 0 || i >= bs.len() {
        Seq::empty()
    } else {
        (if constraints_ok(bs[i], r.constraints) {
            match head_fact(r, bs[i]) {
                Some(f) => seq![f],
                None => Seq::empty(),
            }
        } else {
            Seq::empty()
        }) + query_collect(r, bs, i + 1)
    }
}

/// Everything one application of rule `r` derives from `facts`: the body is
/// unified against the facts in every way, each full binding is filtered by
/// the constraints, and each surviving binding instantiates the head.
/// A caveat is satisfied against `facts` iff this is non-empty.
pub open spec fn query_spec(r: RuleV, facts: Seq<FactV>) -> Seq<FactV> {
    query_collect(r, bindings(r.body, 0, Seq::empty(), facts), 0)
}

/// Derives every fact one application of `r` yields from `facts`.
pub fn query_rule(r: &Rule, facts: &Vec<Fact>) -> (res: Vec<Fact>)
    ensures
        facts_view(res@) == query_spec(r@, facts_view(facts@)),
{
    let ghost rv = r@;
    let ghost factsv = facts_view(facts@);
    let empty_b: Vec<(u32, ID)> = Vec::new();
    assert(binding_view(empty_b@) =~= Seq::<(u32, IdV)>::empty());
    let bs = find_bindings(&r.body, 0, empty_b, facts);
    let ghost bsv = bindings_views(bs@);
    assert(bsv == bindings(rv.body, 0, Seq::empty(), factsv));
    let mut out: Vec<Fact> = Vec::new();
    assert(facts_view(out@) =~= Seq::<FactV>::empty());
    let mut i: usize = 0;
    while i < bs.len()
        invariant
            i <= bs.len(),
            rv == r@,
            bsv == bindings_views(bs@),
            query_collect(rv, bsv, 0) == facts_view(out@) + query_collect(rv, bsv, i as int),
        decreases bs.len() - i,
    {
        assert(bsv[i as int] == binding_view(bs@[i as int]@));
        let ghost outv = facts_view(out@);
        if constraints_ok_exec(&bs[i], &r.constraints) {
            match head_fact_exec(r, &bs[i]) {
                Some(f) => {
                    let ghost fv = f@;
                    out.push(f);
                    proof {
                        assert(facts_view(out@) =~= outv + seq![fv]);
                        i_facts_assoc(outv, seq![fv], query_collect(rv, bsv, i as int + 1));
                    }
                },
                None => {
                    assert(outv + Seq::<FactV>::empty() =~= outv);
                },
            }
        } else {
            assert(outv + Seq::<FactV>::empty() =~= outv);
        }
        i += 1;
    }
    assert(facts_view(out@) + Seq::<FactV>::empty() =~= facts_view(out@));
    out
}

/// Sequence concatenation is associative; stated for the loop above.
proof fn i_facts_assoc(a: Seq<FactV>, m: Seq<FactV>, c: Seq<FactV>)
    ensures
        (a + m) + c =~= a + (m + c),
{
}

/// Whether the fact list holds a fact with model `fv`.
pub fn contains_fact(v: &Vec<Fact>, f: &Fact) -> (r: bool)
    ensures
        r == facts_view(v@).contains(f@),
{
    let mut i: usize = 0;
    while i < v.len()
        invariant
            i <= v.len(),
            forall|j: int| 0 <= j < i ==> facts_view(v@)[j] != f@,
        decreases v.len() - i,
    {
        if fact_eq(&v[i], f) {
            assert(facts_view(v@)[i as int] == f@);
            return true;
        }
        i += 1;
    }
    assert(!facts_view(v@).contains(f@));
    false
}

/// Copies a fact list, preserving the models.
pub fn copy_facts(v: &Vec<Fact>) -> (r: Vec<Fact>)
    ensures
        facts_view(r@) == facts_view(v@),
{
    let mut r: Vec<Fact> = Vec::new();
    let mut i: usize = 0;
    while i < v.len()
        invariant
            i <= v.len(),
            r@.len() == i,
            forall|j: int| 0 <= j < i ==> r@[j]@ == v@[j]@,
        decreases v.len() - i,
    {
        r.push(v[i].clone());
        i += 1;
    }
    assert(facts_view(r@) =~= facts_view(v@));
    r
}

/// `cur` extended with those of `add[i..]` it does not already hold, kept
/// in order of first derivation.
pub open spec fn add_new(cur: Seq<FactV>, add: Seq<FactV>, i: int) -> Seq<FactV>
    decreases add.len() - i,
{
    if i < 0 || i >= add.len() {
        cur
    } else {
        add_new(
            if cur.contains(add[i]) {
                cur
            } else {
                cur.push(add[i])
            },
            add,
            i + 1,
        )
    }
}

/// One derivation pass from rule `i` on: every rule is applied against the
/// facts `base` held at the start of the pass, and whatever is new is
/// appended to `cur`.
pub open spec fn pass_from(base: Seq<FactV>, cur: Seq<FactV>, rules: Seq<RuleV>, i: int) -> Seq<
    FactV,
>
    decreases rules.len() - i,
{
    if i < 0 || i >= rules.len() {
        cur
    } else {
        pass_from(base, add_new(cur, query_spec(rules[i], base), 0), rules, i + 1)
    }
}

/// One full derivation pass over `facts`.
pub open spec fn pass(facts: Seq<FactV>, rules: Seq<RuleV>) -> Seq<FactV> {
    pass_from(facts, facts, rules, 0)
}

/// The least fixpoint of repeated passes, reached within `fuel` further
/// passes: the fact set a pass leaves unchanged. `None` when `fuel` passes
/// do not reach it.
pub open spec fn run_from(facts: Seq<FactV>, rules: Seq<RuleV>, fuel: nat) -> Option<Seq<FactV>>
    decreases fuel,
{
    if pass(facts, rules) == facts {
        Some(facts)
    } else if fuel == 0 {
        None
    } else {
        run_from(pass(facts, rules), rules, (fuel - 1) as nat)
    }
}

/// `add_new` only appends: `cur` stays a prefix.
proof fn lemma_add_new_extends(cur: Seq<FactV>, add: Seq<FactV>, i: int)
    ensures
        cur.is_prefix_of(add_new(cur, add, i)),
    decreases add.len() - i,
{
    if 0 <= i < add.len() {
        let next = if cur.contains(add[i]) {
            cur
        } else {
            cur.push(add[i])
        };
        assert(cur.is_prefix_of(next));
        lemma_add_new_extends(next, add, i + 1);
        assert(next.is_prefix_of(add_new(next, add, i + 1)));
        assert(cur.is_prefix_of(add_new(cur, add, i)));
    }
}

/// A pass only appends: `cur` stays a prefix.
proof fn lemma_pass_extends(base: Seq<FactV>, cur: Seq<FactV>, rules: Seq<RuleV>, i: int)
    ensures
        cur.is_prefix_of(pass_from(base, cur, rules, i)),
    decreases rules.len() - i,
{
    if 0 <= i < rules.len() {
        let next = add_new(cur, query_spec(rules[i], base), 0);
        lemma_add_new_extends(cur, query_spec(rules[i], base), 0);
        lemma_pass_extends(base, next, rules, i + 1);
    }
}

/// A prefix of equal length is the sequence itself.
proof fn lemma_prefix_same_len(a: Seq<FactV>, b: Seq<FactV>)
    requires
        a.is_prefix_of(b),
        a.len() == b.len(),
    ensures
        a == b,
{
    assert(a =~= b);
}

/// The cap on derivation passes: a pass count past it means the rule set
/// keeps producing new facts and the derivation is abandoned.
pub const MAX_ITERATIONS: u64 = 100;

/// The working set of the engine: the facts so far and the rules applied
/// to them.
pub struct World {
    pub facts: Vec<Fact>,
    pub rules: Vec<Rule>,
}

impl World {
    /// An empty world.
    pub fn new() -> (r: World)
        ensures
            facts_view(r.facts@) == Seq::<FactV>::empty(),
            rules_view(r.rules@) == Seq::<RuleV>::empty(),
    {
        let r = World { facts: Vec::new(), rules: Vec::new() };
        assert(facts_view(r.facts@) =~= Seq::<FactV>::empty());
        assert(rules_view(r.rules@) =~= Seq::<RuleV>::empty());
        r
    }

    /// Appends a fact verbatim.
    pub fn add_fact(&mut self, f: Fact)
        ensures
            facts_view(final(self).facts@) == facts_view(old(self).facts@).push(f@),
            final(self).rules@ == old(self).rules@,
    {
        self.facts.push(f);
        assert(facts_view(self.facts@) =~= facts_view(self.facts@.subrange(
            0,
            self.facts@.len() - 1,
        )).push(self.facts@[self.facts@.len() - 1]@));
        assert(self.facts@.subrange(0, self.facts@.len() - 1) =~= old(self).facts@);
    }

    /// Appends a rule verbatim.
    pub fn add_rule(&mut self, r: Rule)
        ensures
            rules_view(final(self).rules@) == rules_view(old(self).rules@).push(r@),
            final(self).facts@ == old(self).facts@,
    {
        self.rules.push(r);
        assert(rules_view(self.rules@) =~= rules_view(self.rules@.subrange(
            0,
            self.rules@.len() - 1,
        )).push(self.rules@[self.rules@.len() - 1]@));
        assert(self.rules@.subrange(0, self.rules@.len() - 1) =~= old(self).rules@);
    }

    /// Runs passes until a pass derives nothing new (the least fixpoint) or
    /// the pass cap is hit. Returns whether the fixpoint was reached; the
    /// facts then hold exactly the closure of the starting facts under the
    /// rules.
    pub fn run(&mut self) -> (done: bool)
        ensures
            final(self).rules@ == old(self).rules@,
            done == run_from(
                facts_view(old(self).facts@),
                rules_view(old(self).rules@),
                MAX_ITERATIONS as nat,
            ).is_some(),
            done ==> Some(facts_view(final(self).facts@)) == run_from(
                facts_view(old(self).facts@),
                rules_view(old(self).rules@),
                MAX_ITERATIONS as nat,
            ),
    {
        let ghost rulesv = rules_view(self.rules@);
        let ghost origv = facts_view(self.facts@);
        let mut fuel: u64 = MAX_ITERATIONS;
        loop
            invariant
                self.rules@ == old(self).rules@,
                rulesv == rules_view(self.rules@),
                origv == facts_view(old(self).facts@),
                fuel <= MAX_ITERATIONS,
                run_from(origv, rulesv, MAX_ITERATIONS as nat) == run_from(
                    facts_view(self.facts@),
                    rulesv,
                    fuel as nat,
                ),
            decreases fuel,
        {
            let ghost passv = facts_view(self.facts@);
            let prev_len = self.facts.len();
            let base = copy_facts(&self.facts);
            let mut i: usize = 0;
            while i < self.rules.len()
                invariant
                    i <= self.rules.len(),
                    self.rules@ == old(self).rules@,
                    rulesv == rules_view(self.rules@),
                    facts_view(base@) == passv,
                    base@.len() <= self.facts@.len(),
                    pass(passv, rulesv) == pass_from(
                        passv,
                        facts_view(self.facts@),
                        rulesv,
                        i as int,
                    ),
                decreases self.rules.len() - i,
            {
                let newf = query_rule(&self.rules[i], &base);
                let ghost newv = facts_view(newf@);
                assert(newv == query_spec(rulesv[i as int], passv));
                let ghost curv = facts_view(self.facts@);
                let mut m: usize = 0;
                while m < newf.len()
                    invariant
                        m <= newf.len(),
                        i < self.rules.len(),
                        self.rules@ == old(self).rules@,
                        rulesv == rules_view(self.rules@),
                        facts_view(base@) == passv,
                        base@.len() <= self.facts@.len(),
                        newv == facts_view(newf@),
                        add_new(curv, newv, 0) == add_new(
                            facts_view(self.facts@),
                            newv,
                            m as int,
                        ),
                        curv.len() <= facts_view(self.facts@).len(),
                        pass(passv, rulesv) == pass_from(passv, curv, rulesv, i as int),
                    decreases newf.len() - m,
                {
                    assert(newv[m as int] == newf@[m as int]@);
                    let f = newf[m].clone();
                    if !contains_fact(&self.facts, &f) {
                        let ghost pre = facts_view(self.facts@);
                        self.facts.push(f);
                        assert(facts_view(self.facts@) =~= pre.push(newv[m as int]));
                    }
                    m += 1;
                }
                i += 1;
            }
            // the pass is complete: self.facts models pass(passv, rulesv)
            proof {
                lemma_pass_extends(passv, passv, rulesv, 0);
            }
            if self.facts.len() == prev_len {
                proof {
                    lemma_prefix_same_len(passv, facts_view(self.facts@));
                    assert(pass(passv, rulesv) == passv);
                    assert(run_from(passv, rulesv, fuel as nat) == Some(passv));
                }
                return true;
            }
            assert(pass(passv, rulesv) != passv) by {
                assert(facts_view(self.facts@).len() != passv.len());
            }
            if fuel == 0 {
                assert(run_from(passv, rulesv, 0) is None);
                return false;
            }
            fuel = fuel - 1;
            assert(run_from(passv, rulesv, (fuel + 1) as nat) == run_from(
                facts_view(self.facts@),
                rulesv,
                fuel as nat,
            ));
        }
    }
}

/// The declarative semantics of matching: a full binding `bf` arises from
/// `b` by matching each body predicate from `j` on against some fact.
pub open spec fn reaches(
    body: Seq<PredicateV>,
    j: int,
    b: Seq<(u32, IdV)>,
    facts: Seq<FactV>,
    bf: Seq<(u32, IdV)>,
) -> bool
    decreases body.len() - j,
{
    if j < 0 {
        false
    } else if j >= body.len() {
        bf == b
    } else {
        exists|k: int|
            0 <= k < facts.len() && (match match_pred(body[j], #[trigger] facts[k], b) {
                Some(b2) => reaches(body, j + 1, b2, facts, bf),
                None => false,
            })
    }
}

/// An element lies in a concatenation iff it lies in one of the parts.
proof fn lemma_concat_contains(x: Seq<Seq<(u32, IdV)>>, y: Seq<Seq<(u32, IdV)>>, e: Seq<(u32, IdV)>)
    ensures
        (x + y).contains(e) <==> x.contains(e) || y.contains(e),
{
    if (x + y).contains(e) {
        let i = choose|i: int| 0 <= i < (x + y).len() && (x + y)[i] == e;
        if i < x.len() {
            assert(x[i] == e);
        } else {
            assert(y[i - x.len()] == e);
        }
    }
    if x.contains(e) {
        let i = choose|i: int| 0 <= i < x.len() && x[i] == e;
        assert((x + y)[i] == e);
    }
    if y.contains(e) {
        let i = choose|i: int| 0 <= i < y.len() && y[i] == e;
        assert((x + y)[x.len() + i] == e);
    }
}

/// The enumeration is sound and complete: the bindings it lists from
/// position `j` are exactly those the declarative semantics reaches.
proof fn lemma_bindings_contains(
    body: Seq<PredicateV>,
    j: int,
    b: Seq<(u32, IdV)>,
    facts: Seq<FactV>,
    bf: Seq<(u32, IdV)>,
)
    requires
        0 <= j <= body.len(),
    ensures
        bindings(body, j, b, facts).contains(bf) <==> reaches(body, j, b, facts, bf),
    decreases body.len() - j, facts.len() + 1,
{
    if j == body.len() {
        assert(bindings(body, j, b, facts) == seq![b]);
        if bf == b {
            assert(seq![b][0] == bf);
        }
    } else {
        lemma_scan_contains(body, j, b, facts, 0, bf);
    }
}

/// The scan from fact `k` lists exactly the bindings reached through some
/// fact at or after `k`.
proof fn lemma_scan_contains(
    body: Seq<PredicateV>,
    j: int,
    b: Seq<(u32, IdV)>,
    facts: Seq<FactV>,
    k: int,
    bf: Seq<(u32, IdV)>,
)
    requires
        0 <= j < body.len(),
        0 <= k <= facts.len(),
    ensures
        bindings_scan(body, j, b, facts, k).contains(bf) <==> exists|k2: int|
            k <= k2 < facts.len() && (match match_pred(body[j], #[trigger] facts[k2], b) {
                Some(b2) => reaches(body, j + 1, b2, facts, bf),
                None => false,
            }),
    decreases body.len() - j, facts.len() - k,
{
    if k == facts.len() {
        assert(bindings_scan(body, j, b, facts, k) =~= Seq::<Seq<(u32, IdV)>>::empty());
    } else {
        lemma_scan_contains(body, j, b, facts, k + 1, bf);
        let here = match match_pred(body[j], facts[k], b) {
            Some(b2) => bindings(body, j + 1, b2, facts),
            None => Seq::<Seq<(u32, IdV)>>::empty(),
        };
        assert(bindings_scan(body, j, b, facts, k) == here + bindings_scan(
            body,
            j,
            b,
            facts,
            k + 1,
        ));
        lemma_concat_contains(here, bindings_scan(body, j, b, facts, k + 1), bf);
        match match_pred(body[j], facts[k], b) {
            Some(b2) => {
                lemma_bindings_contains(body, j + 1, b2, facts, bf);
                if reaches(body, j + 1, b2, facts, bf) {
                    assert(match match_pred(body[j], facts[k], b) {
                        Some(b3) => reaches(body, j + 1, b3, facts, bf),
                        None => false,
                    });
                }
            },
            None => {},
        }
        if bindings_scan(body, j, b, facts, k).contains(bf) {
            if here.contains(bf) {
                assert(exists|k2: int|
                    k <= k2 < facts.len() && (match match_pred(body[j], #[trigger] facts[k2], b) {
                        Some(b2) => reaches(body, j + 1, b2, facts, bf),
                        None => false,
                    })) by {
                    assert(match match_pred(body[j], facts[k], b) {
                        Some(b2) => reaches(body, j + 1, b2, facts, bf),
                        None => false,
                    });
                }
            }
        }
    }
}

/// A nonempty collection means some listed binding passes the constraints
/// and instantiates the head, and conversely.
proof fn lemma_collect_nonempty(r: RuleV, bs: Seq<Seq<(u32, IdV)>>, i: int)
    requires
        0 <= i <= bs.len(),
    ensures
        query_collect(r, bs, i).len() > 0 <==> exists|j: int|
            i <= j < bs.len() && constraints_ok(#[trigger] bs[j], r.constraints) && head_fact(
                r,
                bs[j],
            ) is Some,
    decreases bs.len() - i,
{
    if i < bs.len() {
        lemma_collect_nonempty(r, bs, i + 1);
        if constraints_ok(bs[i], r.constraints) && head_fact(r, bs[i]) is Some {
            assert(exists|j: int|
                i <= j < bs.len() && constraints_ok(#[trigger] bs[j], r.constraints) && head_fact(
                    r,
                    bs[j],
                ) is Some) by {
                assert(constraints_ok(bs[i], r.constraints) && head_fact(r, bs[i]) is Some);
            }
        }
    }
}

/// The engine answers a caveat exactly as the declarative semantics says:
/// applying a rule yields at least one fact iff at least one full binding
/// of its body exists over the fact set that passes every constraint and
/// leaves no head variable unbound.
pub proof fn lemma_caveat_satisfiability(r: RuleV, facts: Seq<FactV>)
    ensures
        query_spec(r, facts).len() > 0 <==> exists|bf: Seq<(u32, IdV)>|
            #[trigger] reaches(r.body, 0, Seq::empty(), facts, bf) && constraints_ok(
                bf,
                r.constraints,
            ) && head_fact(r, bf) is Some,
{
    let bs = bindings(r.body, 0, Seq::empty(), facts);
    lemma_collect_nonempty(r, bs, 0);
    if query_spec(r, facts).len() > 0 {
        let j = choose|j: int|
            0 <= j < bs.len() && constraints_ok(#[trigger] bs[j], r.constraints) && head_fact(
                r,
                bs[j],
            ) is Some;
        assert(bs.contains(bs[j]));
        lemma_bindings_contains(r.body, 0, Seq::empty(), facts, bs[j]);
        assert(reaches(r.body, 0, Seq::empty(), facts, bs[j]));
    }
    if exists|bf: Seq<(u32, IdV)>|
        #[trigger] reaches(r.body, 0, Seq::empty(), facts, bf) && constraints_ok(
            bf,
            r.constraints,
        ) && head_fact(r, bf) is Some {
        let bf = choose|bf: Seq<(u32, IdV)>|
            #[trigger] reaches(r.body, 0, Seq::empty(), facts, bf) && constraints_ok(
                bf,
                r.constraints,
            ) && head_fact(r, bf) is Some;
        lemma_bindings_contains(r.body, 0, Seq::empty(), facts, bf);
        let j = choose|j: int| 0 <= j < bs.len() && bs[j] == bf;
        assert(constraints_ok(bs[j], r.constraints) && head_fact(r, bs[j]) is Some);
    }
}

impl Clone for SymbolTable {
    /// An independent copy sharing no state: one verification's interning
    /// is never visible to the token or to another verification.
    fn clone(&self) -> (r: Self)
        ensures
            r@ == self@,
    {
        let mut symbols: Vec<String> = Vec::new();
        let mut i: usize = 0;
        while i < self.symbols.len()
            invariant
                i <= self.symbols.len(),
                symbols@.len() == i,
                forall|j: int| 0 <= j < i ==> symbols@[j]@ == self.symbols@[j]@,
            decreases self.symbols.len() - i,
        {
            symbols.push(self.symbols[i].clone());
            i += 1;
        }
        let r = SymbolTable { symbols };
        assert(r@ =~= self@);
        r
    }
}

} // verus!
