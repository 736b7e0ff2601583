//! The token core: blocks, the builder that signs an authority block into a
//! token, and the check that runs the engine over token and ambient context.
use vstd::prelude::*;
use vstd::string::StrSliceExecFns;
use crate::crypto::{signature_bytes, KeyPair, PublicKey, RandomSource};
use crate::datalog::{
    self, facts_view, rules_view, run_from, query_spec, Fact, FactV, IdV, Rule, RuleV,
    SymbolTable, World, MAX_ITERATIONS,
};
use crate::error;
use crate::error::{FailedCaveat, LogicV};

pub mod authorizer;

verus! {

/// A signed integer laid out as an unsigned word, order preserved.
pub open spec fn int_word(i: i64) -> u64 {
    ((i as int) + 0x8000_0000_0000_0000) as u64
}

/// A string's characters as words, from position `i` on.
pub open spec fn char_words(s: Seq<char>, i: int) -> Seq<u64>
    decreases s.len() - i,
{
    if i < 0 || i >= s.len() {
        Seq::empty()
    } else {
        seq![s[i] as u64] + char_words(s, i + 1)
    }
}

/// An atom's wire words: a tag, then the payload.
pub open spec fn atom_words(a: IdV) -> Seq<u64> {
    match a {
        IdV::Symbol(s) => seq![0u64, s],
        IdV::Variable(v) => seq![1u64, v as u64],
        IdV::Integer(i) => seq![2u64, int_word(i)],
        IdV::Str(s) => seq![3u64, s.len() as u64] + char_words(s, 0),
        IdV::Date(d) => seq![4u64, d],
    }
}

/// The wire words of the atoms from position `i` on.
pub open spec fn atoms_words(ids: Seq<IdV>, i: int) -> Seq<u64>
    decreases ids.len() - i,
{
    if i < 0 || i >= ids.len() {
        Seq::empty()
    } else {
        atom_words(ids[i]) + atoms_words(ids, i + 1)
    }
}

/// A fact's wire words: a tag, the name id, the arity, the atoms.
pub open spec fn fact_words(f: FactV) -> Seq<u64> {
    seq![5u64, f.name, f.ids.len() as u64] + atoms_words(f.ids, 0)
}

/// The wire words of the facts from position `i` on.
pub open spec fn facts_words(fs: Seq<FactV>, i: int) -> Seq<u64>
    decreases fs.len() - i,
{
    if i < 0 || i >= fs.len() {
        Seq::empty()
    } else {
        fact_words(fs[i]) + facts_words(fs, i + 1)
    }
}

/// The signed image of a block: its index, its fact count, its facts, and
/// the public key the chain continues with.
pub open spec fn block_words_spec(index: u32, facts: Seq<FactV>, next: PublicKey) -> Seq<u64> {
    seq![index as u64, facts.len() as u64] + facts_words(facts, 0) + seq![
        next.w0,
        next.w1,
        next.w2,
        next.w3,
    ]
}

/// Serializes one atom.
fn atom_words_exec(a: &datalog::ID) -> (r: Vec<u64>)
    ensures
        r@ == atom_words(a@),
{
    let mut r: Vec<u64> = Vec::new();
    match a {
        datalog::ID::Symbol(s) => {
            r.push(0);
            r.push(*s);
        },
        datalog::ID::Variable(v) => {
            r.push(1);
            r.push(*v as u64);
        },
        datalog::ID::Integer(i) => {
            r.push(2);
            let w = (((*i as i128) + 0x8000_0000_0000_0000i128) as u64);
            assert(w == int_word(*i));
            r.push(w);
        },
        datalog::ID::Str(s) => {
            r.push(3);
            let n = s.as_str().unicode_len();
            r.push(n as u64);
            let ghost sv = s@;
            proof {
                lemma_char_words_len_one(sv, 0);
                assert(char_words(sv, 0).subrange(0, 0) =~= Seq::<u64>::empty());
                assert(r@ =~= seq![3u64, sv.len() as u64] + char_words(sv, 0).subrange(0, 0));
            }
            let mut i: usize = 0;
            while i < n
                invariant
                    i <= n,
                    n == sv.len(),
                    sv == s@,
                    r@ == seq![3u64, sv.len() as u64] + char_words(sv, 0).subrange(0, i as int),
                    char_words(sv, 0).len() == sv.len(),
                decreases n - i,
            {
                proof {
                    assert(char_words(sv, 0).subrange(0, i + 1) =~= char_words(sv, 0).subrange(
                        0,
                        i as int,
                    ).push(char_words(sv, 0)[i as int]));
                    lemma_char_words_index(sv, i as int);
                }
                let c = s.as_str().get_char(i);
                r.push(c as u64);
                i += 1;
            }
            assert(char_words(sv, 0).subrange(0, sv.len() as int) =~= char_words(sv, 0));
        },
        datalog::ID::Date(d) => {
            r.push(4);
            r.push(*d);
        },
    }
    assert(r@ =~= atom_words(a@));
    r
}

/// `char_words` from position `i` has one word per remaining character.
proof fn lemma_char_words_len_one(s: Seq<char>, i: int)
    requires
        0 <= i <= s.len(),
    ensures
        char_words(s, i).len() == s.len() - i,
    decreases s.len() - i,
{
    if i < s.len() {
        lemma_char_words_len_one(s, i + 1);
    }
}

/// The word at position `i` of `char_words(s, 0)` is `s[i]`.
proof fn lemma_char_words_index(s: Seq<char>, i: int)
    requires
        0 <= i < s.len(),
    ensures
        char_words(s, 0).len() == s.len(),
        char_words(s, 0)[i] == s[i] as u64,
{
    lemma_char_words_index_from(s, 0, i);
}

/// The word at offset `i - j` of `char_words(s, j)` is `s[i]`.
proof fn lemma_char_words_index_from(s: Seq<char>, j: int, i: int)
    requires
        0 <= j <= i < s.len(),
    ensures
        char_words(s, j).len() == s.len() - j,
        char_words(s, j)[i - j] == s[i] as u64,
    decreases s.len() - j,
{
    lemma_char_words_len_one(s, j);
    lemma_char_words_len_one(s, j + 1);
    if j < i {
        lemma_char_words_index_from(s, j + 1, i);
    }
}

/// Serializes one fact.
fn fact_words_exec(f: &Fact) -> (r: Vec<u64>)
    ensures
        r@ == fact_words(f@),
{
    let mut r: Vec<u64> = Vec::new();
    r.push(5);
    r.push(f.predicate.name);
    r.push(f.predicate.ids.len() as u64);
    let ghost idsv = f@.ids;
    let mut i: usize = 0;
    while i < f.predicate.ids.len()
        invariant
            i <= f.predicate.ids.len(),
            idsv == datalog::ids_view(f.predicate.ids@),
            idsv.len() == f.predicate.ids@.len(),
            r@ == seq![5u64, f.predicate.name, idsv.len() as u64] + (atoms_words(idsv, 0).subrange(
                0,
                atoms_words(idsv, 0).len() - atoms_words(idsv, i as int).len(),
            )),
            atoms_words(idsv, i as int).len() <= atoms_words(idsv, 0).len(),
            atoms_words(idsv, 0) == atoms_words(idsv, 0).subrange(
                0,
                atoms_words(idsv, 0).len() - atoms_words(idsv, i as int).len(),
            ) + atoms_words(idsv, i as int),
        decreases f.predicate.ids.len() - i,
    {
        assert(idsv[i as int] == f.predicate.ids@[i as int]@);
        let mut aw = atom_words_exec(&f.predicate.ids[i]);
        let ghost awv = aw@;
        let ghost before = r@;
        r.append(&mut aw);
        proof {
            assert(atoms_words(idsv, i as int) == awv + atoms_words(idsv, i + 1));
            assert(r@ =~= before + awv);
            let total = atoms_words(idsv, 0);
            let done_old = total.len() - atoms_words(idsv, i as int).len();
            let done_new = total.len() - atoms_words(idsv, i + 1).len();
            assert(total == total.subrange(0, done_old) + (awv + atoms_words(idsv, i + 1)));
            assert(total.subrange(0, done_new) =~= total.subrange(0, done_old) + awv);
            assert(total == total.subrange(0, done_new) + atoms_words(idsv, i + 1));
        }
        i += 1;
    }
    proof {
        assert(atoms_words(idsv, idsv.len() as int) =~= Seq::<u64>::empty());
        assert(atoms_words(idsv, 0).subrange(0, atoms_words(idsv, 0).len() as int) =~= atoms_words(
            idsv,
            0,
        ));
        assert(r@ + Seq::<u64>::empty() =~= r@);
        assert(fact_words(f@) == seq![5u64, f@.name, f@.ids.len() as u64] + atoms_words(f@.ids, 0));
    }
    assert(r@ =~= fact_words(f@));
    r
}

/// Serializes a block's signed image.
pub fn block_words(index: u32, facts: &Vec<Fact>, next: &PublicKey) -> (r: Vec<u64>)
    ensures
        r@ == block_words_spec(index, facts_view(facts@), *next),
{
    let ghost fsv = facts_view(facts@);
    let mut r: Vec<u64> = Vec::new();
    r.push(index as u64);
    r.push(facts.len() as u64);
    let mut i: usize = 0;
    while i < facts.len()
        invariant
            i <= facts.len(),
            fsv == facts_view(facts@),
            fsv.len() == facts@.len(),
            r@ == seq![index as u64, fsv.len() as u64] + facts_words(fsv, 0).subrange(
                0,
                facts_words(fsv, 0).len() - facts_words(fsv, i as int).len(),
            ),
            facts_words(fsv, i as int).len() <= facts_words(fsv, 0).len(),
            facts_words(fsv, 0) == facts_words(fsv, 0).subrange(
                0,
                facts_words(fsv, 0).len() - facts_words(fsv, i as int).len(),
            ) + facts_words(fsv, i as int),
        decreases facts.len() - i,
    {
        assert(fsv[i as int] == facts@[i as int]@);
        let mut fw = fact_words_exec(&facts[i]);
        let ghost fwv = fw@;
        let ghost before = r@;
        r.append(&mut fw);
        proof {
            assert(facts_words(fsv, i as int) == fwv + facts_words(fsv, i + 1));
            assert(r@ =~= before + fwv);
            let total = facts_words(fsv, 0);
            let done_old = total.len() - facts_words(fsv, i as int).len();
            let done_new = total.len() - facts_words(fsv, i + 1).len();
            assert(total == total.subrange(0, done_old) + (fwv + facts_words(fsv, i + 1)));
            assert(total.subrange(0, done_new) =~= total.subrange(0, done_old) + fwv);
            assert(total == total.subrange(0, done_new) + facts_words(fsv, i + 1));
        }
        i += 1;
    }
    proof {
        assert(facts_words(fsv, fsv.len() as int) =~= Seq::<u64>::empty());
        assert(facts_words(fsv, 0).subrange(0, facts_words(fsv, 0).len() as int) =~= facts_words(
            fsv,
            0,
        ));
    }
    r.push(next.w0);
    r.push(next.w1);
    r.push(next.w2);
    r.push(next.w3);
    assert(r@ =~= block_words_spec(index, fsv, *next));
    r
}

/// An ordered, signed unit of a token. Only the authority block (index 0)
/// may assert facts granting rights; later blocks may only narrow by
/// adding caveats.
pub struct Block {
    pub index: u32,
    pub facts: Vec<Fact>,
    pub rules: Vec<Rule>,
    pub caveats: Vec<Rule>,
}

/// Model of a block.
#[verifier::ext_equal]
pub struct BlockV {
    pub index: u32,
    pub facts: Seq<FactV>,
    pub rules: Seq<RuleV>,
    pub caveats: Seq<RuleV>,
}

impl View for Block {
    type V = BlockV;

    open spec fn view(&self) -> BlockV {
        BlockV {
            index: self.index,
            facts: facts_view(self.facts@),
            rules: rules_view(self.rules@),
            caveats: rules_view(self.caveats@),
        }
    }
}

/// The models of a list of blocks.
pub open spec fn blocks_view(s: Seq<Block>) -> Seq<BlockV> {
    s.map_values(|b: Block| b@)
}

/// A token: the signed chain of blocks and the symbol table accumulated
/// while building them. Immutable once signed; verification borrows it and
/// never mutates it.
pub struct Biscuit {
    pub symbols: SymbolTable,
    pub authority: Block,
    pub blocks: Vec<Block>,
    pub root_public: PublicKey,
    pub next_key: KeyPair,
    pub signature: Vec<u8>,
}

/// Model of a token.
#[verifier::ext_equal]
pub struct BiscuitV {
    pub symbols: Seq<Seq<char>>,
    pub authority: BlockV,
    pub blocks: Seq<BlockV>,
    pub root_public: PublicKey,
    pub next_key: KeyPair,
    pub signature: Seq<u8>,
}

impl View for Biscuit {
    type V = BiscuitV;

    open spec fn view(&self) -> BiscuitV {
        BiscuitV {
            symbols: self.symbols@,
            authority: self.authority@,
            blocks: blocks_view(self.blocks@),
            root_public: self.root_public,
            next_key: self.next_key,
            signature: self.signature@,
        }
    }
}

/// `acc` followed by the facts of the blocks from position `i` on.
pub open spec fn blocks_facts(bs: Seq<BlockV>, i: int, acc: Seq<FactV>) -> Seq<FactV>
    decreases bs.len() - i,
{
    if i < 0 || i >= bs.len() {
        acc
    } else {
        blocks_facts(bs, i + 1, acc + bs[i].facts)
    }
}

/// Every fact a token itself asserts, authority first, in block order.
pub open spec fn token_facts(t: BiscuitV) -> Seq<FactV> {
    blocks_facts(t.blocks, 0, t.authority.facts)
}

/// `acc` followed by the rules of the blocks from position `i` on.
pub open spec fn blocks_rules(bs: Seq<BlockV>, i: int, acc: Seq<RuleV>) -> Seq<RuleV>
    decreases bs.len() - i,
{
    if i < 0 || i >= bs.len() {
        acc
    } else {
        blocks_rules(bs, i + 1, acc + bs[i].rules)
    }
}

/// Every rule a token itself carries, authority first, in block order.
pub open spec fn token_rules(t: BiscuitV) -> Seq<RuleV> {
    blocks_rules(t.blocks, 0, t.authority.rules)
}

/// `acc` extended with one entry for each caveat of `cs`, from `i` on, that
/// has no satisfying binding in the derived fact set `w`.
pub open spec fn failed_block_caveats(
    cs: Seq<RuleV>,
    w: Seq<FactV>,
    block_id: u32,
    i: int,
    acc: Seq<FailedCaveat>,
) -> Seq<FailedCaveat>
    decreases cs.len() - i,
{
    if i < 0 || i >= cs.len() {
        acc
    } else {
        failed_block_caveats(
            cs,
            w,
            block_id,
            i + 1,
            if query_spec(cs[i], w).len() == 0 {
                acc.push(FailedCaveat::Block { block_id, caveat_id: i as u32 })
            } else {
                acc
            },
        )
    }
}

/// The unsatisfied caveats of the blocks from position `i` on; block `i`
/// carries block id `i + 1`, the authority block having id 0.
pub open spec fn failed_blocks(
    bs: Seq<BlockV>,
    w: Seq<FactV>,
    i: int,
    acc: Seq<FailedCaveat>,
) -> Seq<FailedCaveat>
    decreases bs.len() - i,
{
    if i < 0 || i >= bs.len() {
        acc
    } else {
        failed_blocks(bs, w, i + 1, failed_block_caveats(bs[i].caveats, w, (i + 1) as u32, 0, acc))
    }
}

/// `acc` extended with one entry for each verifier-supplied caveat, from
/// `i` on, that has no satisfying binding in `w`.
pub open spec fn failed_verifier_caveats(
    cs: Seq<RuleV>,
    w: Seq<FactV>,
    i: int,
    acc: Seq<FailedCaveat>,
) -> Seq<FailedCaveat>
    decreases cs.len() - i,
{
    if i < 0 || i >= cs.len() {
        acc
    } else {
        failed_verifier_caveats(
            cs,
            w,
            i + 1,
            if query_spec(cs[i], w).len() == 0 {
                acc.push(FailedCaveat::Verifier { caveat_id: i as u32 })
            } else {
                acc
            },
        )
    }
}

/// What checking a token against ambient context yields: the engine runs
/// to the fixpoint of the token's and the ambient facts under the token's
/// and the ambient rules; then every caveat — the token's and the
/// verifier's — must have at least one satisfying binding. The result is
/// `Ok` iff the fixpoint is reached and no caveat fails, and otherwise
/// names every caveat without a binding.
pub open spec fn check_spec(
    t: BiscuitV,
    ambient_facts: Seq<FactV>,
    ambient_rules: Seq<RuleV>,
    ambient_caveats: Seq<RuleV>,
) -> Result<(), LogicV> {
    let facts = token_facts(t) + ambient_facts;
    let rules = token_rules(t) + ambient_rules;
    match run_from(facts, rules, MAX_ITERATIONS as nat) {
        None => Err(LogicV::IterationLimit),
        Some(w) => {
            let failed = failed_verifier_caveats(
                ambient_caveats,
                w,
                0,
                failed_blocks(t.blocks, w, 0, failed_block_caveats(t.authority.caveats, w, 0, 0, Seq::empty())),
            );
            if failed.len() == 0 {
                Ok(())
            } else {
                Err(LogicV::FailedCaveats(failed))
            }
        },
    }
}

/// Appends deep copies of `src`'s facts to `dst`.
fn append_fact_copies(dst: &mut Vec<Fact>, src: &Vec<Fact>)
    ensures
        facts_view(final(dst)@) == facts_view(old(dst)@) + facts_view(src@),
{
    let mut i: usize = 0;
    while i < src.len()
        invariant
            i <= src.len(),
            dst@.len() == old(dst)@.len() + i,
            forall|j: int| 0 <= j < old(dst)@.len() ==> dst@[j]@ == old(dst)@[j]@,
            forall|j: int| 0 <= j < i ==> dst@[old(dst)@.len() + j]@ == src@[j]@,
        decreases src.len() - i,
    {
        dst.push(src[i].clone());
        i += 1;
    }
    assert(facts_view(dst@) =~= facts_view(old(dst)@) + facts_view(src@));
}

/// Appends deep copies of `src`'s rules to `dst`.
fn append_rule_copies(dst: &mut Vec<Rule>, src: &Vec<Rule>)
    ensures
        rules_view(final(dst)@) == rules_view(old(dst)@) + rules_view(src@),
{
    let mut i: usize = 0;
    while i < src.len()
        invariant
            i <= src.len(),
            dst@.len() == old(dst)@.len() + i,
            forall|j: int| 0 <= j < old(dst)@.len() ==> dst@[j]@ == old(dst)@[j]@,
            forall|j: int| 0 <= j < i ==> dst@[old(dst)@.len() + j]@ == src@[j]@,
        decreases src.len() - i,
    {
        dst.push(src[i].clone());
        i += 1;
    }
    assert(rules_view(dst@) =~= rules_view(old(dst)@) + rules_view(src@));
}

impl Biscuit {
    /// Checks the token against the given ambient context, all already in
    /// engine-level form over `symbols`. Succeeds iff the derivation
    /// reaches its fixpoint and every caveat, the token's and the
    /// caller's, is satisfied; the error names every caveat that is not.
    pub fn check(
        &self,
        symbols: &SymbolTable,
        ambient_facts: Vec<Fact>,
        ambient_rules: Vec<Rule>,
        ambient_caveats: Vec<Rule>,
    ) -> (r: Result<(), error::Logic>)
        requires
            self@.authority.caveats.len() <= u32::MAX,
            self@.blocks.len() < u32::MAX,
            forall|j: int|
                0 <= j < self@.blocks.len() ==> (#[trigger] self@.blocks[j]).caveats.len()
                    <= u32::MAX,
            ambient_caveats@.len() <= u32::MAX,
        ensures
            error::result_view(r) == check_spec(
                self@,
                facts_view(ambient_facts@),
                rules_view(ambient_rules@),
                rules_view(ambient_caveats@),
            ),
    {
        let ghost tv = self@;
        let ghost afv = facts_view(ambient_facts@);
        let ghost arv = rules_view(ambient_rules@);
        let ghost acv = rules_view(ambient_caveats@);

        // assemble the combined fact set
        let mut all_facts = datalog::copy_facts(&self.authority.facts);
        let mut i: usize = 0;
        while i < self.blocks.len()
            invariant
                i <= self.blocks.len(),
                tv == self@,
                tv.blocks.len() == self.blocks@.len(),
                token_facts(tv) == blocks_facts(tv.blocks, i as int, facts_view(all_facts@)),
            decreases self.blocks.len() - i,
        {
            assert(tv.blocks[i as int] == self.blocks@[i as int]@);
            append_fact_copies(&mut all_facts, &self.blocks[i].facts);
            i += 1;
        }
        let mut ambient_facts = ambient_facts;
        let ghost base = facts_view(all_facts@);
        all_facts.append(&mut ambient_facts);
        assert(facts_view(all_facts@) =~= base + afv);

        // assemble the combined rule set
        let mut all_rules: Vec<Rule> = Vec::new();
        assert(rules_view(all_rules@) =~= Seq::<RuleV>::empty());
        append_rule_copies(&mut all_rules, &self.authority.rules);
        let mut k: usize = 0;
        while k < self.blocks.len()
            invariant
                k <= self.blocks.len(),
                tv == self@,
                tv.blocks.len() == self.blocks@.len(),
                token_rules(tv) == blocks_rules(tv.blocks, k as int, rules_view(all_rules@)),
            decreases self.blocks.len() - k,
        {
            assert(tv.blocks[k as int] == self.blocks@[k as int]@);
            append_rule_copies(&mut all_rules, &self.blocks[k].rules);
            k += 1;
        }
        let mut ambient_rules = ambient_rules;
        let ghost rbase = rules_view(all_rules@);
        all_rules.append(&mut ambient_rules);
        assert(rules_view(all_rules@) =~= rbase + arv);

        // derive the closure
        let mut world = World { facts: all_facts, rules: all_rules };
        let done = world.run();
        if !done {
            return Err(error::Logic::IterationLimit);
        }
        let ghost w = facts_view(world.facts@);

        // test every caveat against the closure
        let mut failed: Vec<error::FailedCaveat> = Vec::new();
        let mut c: usize = 0;
        while c < self.authority.caveats.len()
            invariant
                c <= self.authority.caveats.len(),
                tv == self@,
                w == facts_view(world.facts@),
                tv.authority.caveats.len() == self.authority.caveats@.len(),
                tv.authority.caveats.len() <= u32::MAX,
                failed_block_caveats(tv.authority.caveats, w, 0, 0, Seq::empty())
                    == failed_block_caveats(tv.authority.caveats, w, 0, c as int, failed@),
            decreases self.authority.caveats.len() - c,
        {
            assert(tv.authority.caveats[c as int] == self.authority.caveats@[c as int]@);
            let res = datalog::query_rule(&self.authority.caveats[c], &world.facts);
            if res.len() == 0 {
                failed.push(error::FailedCaveat::Block { block_id: 0, caveat_id: c as u32 });
            }
            c += 1;
        }
        let ghost after_auth = failed@;
        let mut b: usize = 0;
        while b < self.blocks.len()
            invariant
                b <= self.blocks.len(),
                tv == self@,
                w == facts_view(world.facts@),
                tv.blocks.len() == self.blocks@.len(),
                tv.blocks.len() < u32::MAX,
                forall|j: int|
                    0 <= j < tv.blocks.len() ==> (#[trigger] tv.blocks[j]).caveats.len()
                        <= u32::MAX,
                failed_blocks(tv.blocks, w, 0, after_auth) == failed_blocks(
                    tv.blocks,
                    w,
                    b as int,
                    failed@,
                ),
            decreases self.blocks.len() - b,
        {
            assert(tv.blocks[b as int] == self.blocks@[b as int]@);
            let ghost at_entry = failed@;
            let mut cc: usize = 0;
            while cc < self.blocks[b].caveats.len()
                invariant
                    cc <= self.blocks[b as int].caveats.len(),
                    b < self.blocks@.len(),
                    tv == self@,
                    w == facts_view(world.facts@),
                    tv.blocks.len() == self.blocks@.len(),
                    tv.blocks[b as int] == self.blocks@[b as int]@,
                    tv.blocks[b as int].caveats.len() == self.blocks@[b as int].caveats@.len(),
                    tv.blocks[b as int].caveats.len() <= u32::MAX,
                    b + 1 <= u32::MAX,
                    failed_block_caveats(tv.blocks[b as int].caveats, w, (b + 1) as u32, 0, at_entry)
                        == failed_block_caveats(
                        tv.blocks[b as int].caveats,
                        w,
                        (b + 1) as u32,
                        cc as int,
                        failed@,
                    ),
                decreases self.blocks[b as int].caveats.len() - cc,
            {
                assert(tv.blocks[b as int].caveats[cc as int] == self.blocks@[b as int].caveats@[cc as int]@);
                let res = datalog::query_rule(&self.blocks[b].caveats[cc], &world.facts);
                if res.len() == 0 {
                    failed.push(
                        error::FailedCaveat::Block {
                            block_id: (b + 1) as u32,
                            caveat_id: cc as u32,
                        },
                    );
                }
                cc += 1;
            }
            b += 1;
        }
        let ghost after_blocks = failed@;
        let mut vc: usize = 0;
        while vc < ambient_caveats.len()
            invariant
                vc <= ambient_caveats.len(),
                w == facts_view(world.facts@),
                acv == rules_view(ambient_caveats@),
                acv.len() == ambient_caveats@.len(),
                acv.len() <= u32::MAX,
                failed_verifier_caveats(acv, w, 0, after_blocks) == failed_verifier_caveats(
                    acv,
                    w,
                    vc as int,
                    failed@,
                ),
            decreases ambient_caveats.len() - vc,
        {
            assert(acv[vc as int] == ambient_caveats@[vc as int]@);
            let res = datalog::query_rule(&ambient_caveats[vc], &world.facts);
            if res.len() == 0 {
                failed.push(error::FailedCaveat::Verifier { caveat_id: vc as u32 });
            }
            vc += 1;
        }
        if failed.len() == 0 {
            Ok(())
        } else {
            Err(error::Logic::FailedCaveats(failed))
        }
    }
}

/// The decimal digits of `n`, most significant first; every byte is a
/// digit character.
pub open spec fn dec(n: nat) -> Seq<u8>
    decreases n,
{
    if n < 10 {
        seq![(48 + n) as u8]
    } else {
        dec(n / 10).push((48 + n % 10) as u8)
    }
}

/// Renders `n` in decimal.
fn dec_exec(n: u64) -> (r: Vec<u8>)
    ensures
        r@ == dec(n as nat),
    decreases n,
{
    if n < 10 {
        let mut r: Vec<u8> = Vec::new();
        r.push(48 + n as u8);
        assert(r@ =~= dec(n as nat));
        r
    } else {
        let mut r = dec_exec(n / 10);
        r.push(48 + (n % 10) as u8);
        r
    }
}

/// Every digit byte is printable ASCII.
proof fn lemma_dec_ascii(n: nat)
    ensures
        forall|j: int| 0 <= j < dec(n).len() ==> #[trigger] dec(n)[j] < 128,
    decreases n,
{
    if n >= 10 {
        lemma_dec_ascii(n / 10);
        assert forall|j: int| 0 <= j < dec(n).len() implies #[trigger] dec(n)[j] < 128 by {
            if j < dec(n / 10).len() {
                assert(dec(n)[j] == dec(n / 10)[j]);
            } else {
                assert(dec(n)[j] == (48 + n % 10) as u8);
            }
        }
    }
}

/// An atom's diagnostic text: a tag character and the numeric payload;
/// free text appears by its length.
pub open spec fn render_atom(a: IdV) -> Seq<u8> {
    match a {
        IdV::Symbol(s) => seq![35u8] + dec(s as nat),  // '#'
        IdV::Variable(v) => seq![36u8] + dec(v as nat),  // '$'
        IdV::Integer(i) => if i >= 0 {
            dec(i as nat)
        } else {
            seq![45u8] + dec((-(i as int)) as nat)  // '-'
        },
        IdV::Str(s) => seq![115u8] + dec(s.len()),  // 's'
        IdV::Date(d) => seq![64u8] + dec(d as nat),  // '@'
    }
}

/// Renders one atom.
fn render_atom_exec(a: &datalog::ID) -> (r: Vec<u8>)
    ensures
        r@ == render_atom(a@),
{
    let mut r: Vec<u8> = Vec::new();
    match a {
        datalog::ID::Symbol(s) => {
            r.push(35);
            let mut d = dec_exec(*s);
            r.append(&mut d);
        },
        datalog::ID::Variable(v) => {
            r.push(36);
            let mut d = dec_exec(*v as u64);
            r.append(&mut d);
        },
        datalog::ID::Integer(i) => {
            if *i >= 0 {
                let mut d = dec_exec(*i as u64);
                r.append(&mut d);
            } else {
                r.push(45);
                let m = (-(*i as i128)) as u64;
                assert(m as nat == (-(*i as int)) as nat);
                let mut d = dec_exec(m);
                r.append(&mut d);
            }
        },
        datalog::ID::Str(s) => {
            r.push(115);
            let n = s.as_str().unicode_len();
            let mut d = dec_exec(n as u64);
            r.append(&mut d);
        },
        datalog::ID::Date(d0) => {
            r.push(64);
            let mut d = dec_exec(*d0);
            r.append(&mut d);
        },
    }
    assert(r@ =~= render_atom(a@));
    r
}

/// The atoms from `i` on, each preceded by a comma and a space.
pub open spec fn render_atoms(ids: Seq<IdV>, i: int) -> Seq<u8>
    decreases ids.len() - i,
{
    if i < 0 || i >= ids.len() {
        Seq::empty()
    } else {
        seq![44u8, 32u8] + render_atom(ids[i]) + render_atoms(ids, i + 1)
    }
}

/// A fact's diagnostic line: its name id and its atoms, and a line break.
pub open spec fn render_fact(f: FactV) -> Seq<u8> {
    seq![32u8, 32u8] + dec(f.name as nat) + seq![40u8] + render_atoms(f.ids, 0) + seq![41u8, 10u8]
}

/// The facts from `i` on, one line each.
pub open spec fn render_facts(fs: Seq<FactV>, i: int) -> Seq<u8>
    decreases fs.len() - i,
{
    if i < 0 || i >= fs.len() {
        Seq::empty()
    } else {
        render_fact(fs[i]) + render_facts(fs, i + 1)
    }
}

/// A token's diagnostic text: the authority fact count and the facts, one
/// line each, then the count of later blocks. Numbers stand for interned
/// ids; the text is not parsed back.
pub open spec fn render_token(t: BiscuitV) -> Seq<u8> {
    dec(t.authority.facts.len()) + seq![10u8] + render_facts(t.authority.facts, 0) + dec(
        t.blocks.len(),
    ) + seq![10u8]
}

/// Every rendered byte is ASCII.
proof fn lemma_render_atom_ascii(a: IdV)
    ensures
        forall|j: int| 0 <= j < render_atom(a).len() ==> #[trigger] render_atom(a)[j] < 128,
{
    match a {
        IdV::Symbol(s) => {
            lemma_dec_ascii(s as nat);
        },
        IdV::Variable(v) => {
            lemma_dec_ascii(v as nat);
        },
        IdV::Integer(i) => {
            if i >= 0 {
                lemma_dec_ascii(i as nat);
            } else {
                lemma_dec_ascii((-(i as int)) as nat);
            }
        },
        IdV::Str(s) => {
            lemma_dec_ascii(s.len());
        },
        IdV::Date(d) => {
            lemma_dec_ascii(d as nat);
        },
    }
}

/// Relies on String::from_utf8: ASCII bytes become the string of exactly
/// those characters.
#[verifier::external_body]
fn string_from_ascii(bytes: Vec<u8>) -> (r: String)
    requires
        forall|j: int| 0 <= j < bytes@.len() ==> bytes@[j] < 128,
    ensures
        r@.len() == bytes@.len(),
        forall|j: int| 0 <= j < bytes@.len() ==> (r@[j] as u8 == bytes@[j]) && ((r@[j] as u32)
            < 128),
{
    String::from_utf8(bytes).unwrap_or_default()
}

/// The atom list suffix is ASCII.
proof fn lemma_render_atoms_ascii(ids: Seq<IdV>, i: int)
    ensures
        forall|j: int| 0 <= j < render_atoms(ids, i).len() ==> #[trigger] render_atoms(ids, i)[j]
            < 128,
    decreases ids.len() - i,
{
    if 0 <= i < ids.len() {
        lemma_render_atom_ascii(ids[i]);
        lemma_render_atoms_ascii(ids, i + 1);
        let a = seq![44u8, 32u8];
        let m = render_atom(ids[i]);
        let rest = render_atoms(ids, i + 1);
        assert(render_atoms(ids, i) == a + m + rest);
        assert forall|j: int| 0 <= j < render_atoms(ids, i).len() implies #[trigger] render_atoms(
            ids,
            i,
        )[j] < 128 by {
            if j < 2 {
                assert(render_atoms(ids, i)[j] == a[j]);
            } else if j < 2 + m.len() {
                assert(render_atoms(ids, i)[j] == m[j - 2]);
            } else {
                assert(render_atoms(ids, i)[j] == rest[j - 2 - m.len()]);
            }
        }
    }
}

/// A fact's line is ASCII.
proof fn lemma_render_fact_ascii(f: FactV)
    ensures
        forall|j: int| 0 <= j < render_fact(f).len() ==> #[trigger] render_fact(f)[j] < 128,
{
    lemma_dec_ascii(f.name as nat);
    lemma_render_atoms_ascii(f.ids, 0);
}

/// The fact list suffix is ASCII.
proof fn lemma_render_facts_ascii(fs: Seq<FactV>, i: int)
    ensures
        forall|j: int| 0 <= j < render_facts(fs, i).len() ==> #[trigger] render_facts(fs, i)[j]
            < 128,
    decreases fs.len() - i,
{
    if 0 <= i < fs.len() {
        lemma_render_fact_ascii(fs[i]);
        lemma_render_facts_ascii(fs, i + 1);
        let m = render_fact(fs[i]);
        let rest = render_facts(fs, i + 1);
        assert(render_facts(fs, i) == m + rest);
        assert forall|j: int| 0 <= j < render_facts(fs, i).len() implies #[trigger] render_facts(
            fs,
            i,
        )[j] < 128 by {
            if j < m.len() {
                assert(render_facts(fs, i)[j] == m[j]);
            } else {
                assert(render_facts(fs, i)[j] == rest[j - m.len()]);
            }
        }
    }
}

/// The whole rendering is ASCII.
proof fn lemma_render_token_ascii(t: BiscuitV)
    ensures
        forall|j: int| 0 <= j < render_token(t).len() ==> #[trigger] render_token(t)[j] < 128,
{
    lemma_dec_ascii(t.authority.facts.len());
    lemma_render_facts_ascii(t.authority.facts, 0);
    lemma_dec_ascii(t.blocks.len());
}

/// Renders one fact's line.
fn render_fact_exec(f: &Fact) -> (r: Vec<u8>)
    ensures
        r@ == render_fact(f@),
{
    let mut r: Vec<u8> = Vec::new();
    r.push(32);
    r.push(32);
    let mut d = dec_exec(f.predicate.name);
    r.append(&mut d);
    r.push(40);
    let ghost idsv = f@.ids;
    let mut i: usize = 0;
    while i < f.predicate.ids.len()
        invariant
            i <= f.predicate.ids.len(),
            idsv == datalog::ids_view(f.predicate.ids@),
            idsv.len() == f.predicate.ids@.len(),
            r@ == seq![32u8, 32u8] + dec(f.predicate.name as nat) + seq![40u8] + render_atoms(
                idsv,
                0,
            ).subrange(0, render_atoms(idsv, 0).len() - render_atoms(idsv, i as int).len()),
            render_atoms(idsv, i as int).len() <= render_atoms(idsv, 0).len(),
            render_atoms(idsv, 0) == render_atoms(idsv, 0).subrange(
                0,
                render_atoms(idsv, 0).len() - render_atoms(idsv, i as int).len(),
            ) + render_atoms(idsv, i as int),
        decreases f.predicate.ids.len() - i,
    {
        assert(idsv[i as int] == f.predicate.ids@[i as int]@);
        r.push(44);
        r.push(32);
        let mut aw = render_atom_exec(&f.predicate.ids[i]);
        let ghost awv = seq![44u8, 32u8] + aw@;
        let ghost before = r@.subrange(0, r@.len() - 2);
        r.append(&mut aw);
        proof {
            assert(render_atoms(idsv, i as int) == awv + render_atoms(idsv, i + 1));
            assert(r@ =~= before + awv);
            let total = render_atoms(idsv, 0);
            let done_old = total.len() - render_atoms(idsv, i as int).len();
            let done_new = total.len() - render_atoms(idsv, i + 1).len();
            assert(total == total.subrange(0, done_old) + (awv + render_atoms(idsv, i + 1)));
            assert(total.subrange(0, done_new) =~= total.subrange(0, done_old) + awv);
            assert(total == total.subrange(0, done_new) + render_atoms(idsv, i + 1));
        }
        i += 1;
    }
    proof {
        assert(render_atoms(idsv, idsv.len() as int) =~= Seq::<u8>::empty());
        assert(render_atoms(idsv, 0).subrange(0, render_atoms(idsv, 0).len() as int)
            =~= render_atoms(idsv, 0));
    }
    r.push(41);
    r.push(10);
    assert(r@ =~= render_fact(f@));
    r
}

/// The mutable builder of a token, bound to the root key pair: authority
/// facts accumulate, interned as they come, and `build` signs them.
pub struct BiscuitBuilder<'a> {
    pub root: &'a KeyPair,
    pub symbols: SymbolTable,
    pub facts: Vec<Fact>,
}

/// What a finished token looks like, apart from the key drawn for the
/// chain's continuation: the builder's symbols and facts, an authority
/// block of index 0 without rules or caveats, no later blocks yet, the
/// root's public key, and the root's signature over the authority block
/// and the continuation key.
pub open spec fn token_built(
    t: BiscuitV,
    symbols: Seq<Seq<char>>,
    facts: Seq<FactV>,
    root: KeyPair,
) -> bool {
    &&& t.symbols == symbols
    &&& t.authority.index == 0
    &&& t.authority.facts == facts
    &&& t.authority.rules == Seq::<RuleV>::empty()
    &&& t.authority.caveats == Seq::<RuleV>::empty()
    &&& t.blocks == Seq::<BlockV>::empty()
    &&& t.root_public == root.public
    &&& crate::crypto::keypair_wf(t.next_key)
    &&& t.signature == signature_bytes(
        root.private,
        block_words_spec(0, facts, t.next_key.public),
    )
}

impl<'a> BiscuitBuilder<'a> {
    /// Adds one authority fact, interning its names into the token's
    /// nascent symbol table.
    pub fn add_authority_fact(&mut self, fact_: crate::builder::Fact)
        ensures
            final(self).symbols@ == crate::builder::convert_fact_spec(
                old(self).symbols@,
                fact_@,
            ).0,
            facts_view(final(self).facts@) == facts_view(old(self).facts@).push(
                crate::builder::convert_fact_spec(old(self).symbols@, fact_@).1,
            ),
            final(self).root == old(self).root,
    {
        let ghost before = facts_view(self.facts@);
        let f = fact_.convert(&mut self.symbols);
        let ghost fv = f@;
        self.facts.push(f);
        assert(facts_view(self.facts@) =~= before.push(fv));
    }

    /// Signs the authority block into an immutable token, drawing the
    /// chain's continuation key from the secure default source.
    pub fn build(self) -> (t: Biscuit)
        ensures
            token_built(t@, self.symbols@, facts_view(self.facts@), *self.root),
    {
        let next_key = KeyPair::new();
        self.finish(next_key)
    }

    /// Signs the authority block into an immutable token, drawing the
    /// chain's continuation key from the caller's deterministic source:
    /// the token is a function of the builder's content, the root key and
    /// the source's state.
    pub fn build_with_rng(self, rng: &mut RandomSource) -> (t: Biscuit)
        ensures
            token_built(t@, self.symbols@, facts_view(self.facts@), *self.root),
            t@.next_key.private == crate::crypto::private_from_state(old(rng).state),
    {
        let next_key = KeyPair::new_with_rng(rng);
        self.finish(next_key)
    }

    /// Assembles and signs the token around the given continuation key.
    fn finish(self, next_key: KeyPair) -> (t: Biscuit)
        requires
            crate::crypto::keypair_wf(next_key),
        ensures
            token_built(t@, self.symbols@, facts_view(self.facts@), *self.root),
            t@.next_key == next_key,
    {
        let words = block_words(0, &self.facts, &next_key.public);
        let signature = self.root.sign(&words);
        let t = Biscuit {
            symbols: self.symbols,
            authority: Block { index: 0, facts: self.facts, rules: Vec::new(), caveats: Vec::new() },
            blocks: Vec::new(),
            root_public: self.root.public,
            next_key,
            signature,
        };
        assert(rules_view(t.authority.rules@) =~= Seq::<RuleV>::empty());
        assert(rules_view(t.authority.caveats@) =~= Seq::<RuleV>::empty());
        assert(blocks_view(t.blocks@) =~= Seq::<BlockV>::empty());
        t
    }
}

impl Biscuit {
    /// A builder bound to the root key pair, with nothing granted yet.
    pub fn builder(root: &KeyPair) -> (b: BiscuitBuilder<'_>)
        ensures
            b.symbols@ == Seq::<Seq<char>>::empty(),
            facts_view(b.facts@) == Seq::<FactV>::empty(),
            b.root == root,
    {
        let b = BiscuitBuilder { root, symbols: SymbolTable::new(), facts: Vec::new() };
        assert(facts_view(b.facts@) =~= Seq::<FactV>::empty());
        b
    }

    /// Whether `root` is the key pair whose signature this token carries:
    /// the structural check, run before any logic evaluation.
    pub fn check_root_key(&self, root: &KeyPair) -> (r: Result<(), error::Format>)
        ensures
            r is Ok <==> self@.signature == signature_bytes(
                root.private,
                block_words_spec(
                    self@.authority.index,
                    self@.authority.facts,
                    self@.next_key.public,
                ),
            ),
            r is Err ==> r == Err::<(), error::Format>(error::Format::InvalidSignature),
    {
        let words = block_words(self.authority.index, &self.authority.facts, &self.next_key.public);
        let expected = root.sign(&words);
        if expected.len() != self.signature.len() {
            return Err(error::Format::InvalidSignature);
        }
        let mut i: usize = 0;
        while i < expected.len()
            invariant
                i <= expected.len(),
                expected@.len() == self.signature@.len(),
                expected@ == signature_bytes(
                    root.private,
                    block_words_spec(
                        self@.authority.index,
                        self@.authority.facts,
                        self@.next_key.public,
                    ),
                ),
                forall|j: int| 0 <= j < i ==> expected@[j] == self.signature@[j],
            decreases expected.len() - i,
        {
            if expected[i] != self.signature[i] {
                return Err(error::Format::InvalidSignature);
            }
            i += 1;
        }
        assert(expected@ =~= self.signature@);
        Ok(())
    }

    /// A human-readable rendering of the token's facts and blocks, for
    /// diagnostics only; it is never parsed back. One line per authority
    /// fact, framed by the fact count and the count of later blocks.
    pub fn print(&self) -> (r: String)
        ensures
            r@.len() == render_token(self@).len(),
            forall|j: int| 0 <= j < r@.len() ==> r@[j] as u8 == render_token(self@)[j],
    {
        let ghost tv = self@;
        let mut out: Vec<u8> = Vec::new();
        let mut d = dec_exec(self.authority.facts.len() as u64);
        out.append(&mut d);
        out.push(10);
        let ghost head = dec(tv.authority.facts.len()) + seq![10u8];
        assert(out@ =~= head);
        let ghost fsv = tv.authority.facts;
        let mut i: usize = 0;
        while i < self.authority.facts.len()
            invariant
                i <= self.authority.facts.len(),
                tv == self@,
                head == dec(tv.authority.facts.len()) + seq![10u8],
                fsv == tv.authority.facts,
                fsv.len() == self.authority.facts@.len(),
                out@ == head + render_facts(fsv, 0).subrange(
                    0,
                    render_facts(fsv, 0).len() - render_facts(fsv, i as int).len(),
                ),
                render_facts(fsv, i as int).len() <= render_facts(fsv, 0).len(),
                render_facts(fsv, 0) == render_facts(fsv, 0).subrange(
                    0,
                    render_facts(fsv, 0).len() - render_facts(fsv, i as int).len(),
                ) + render_facts(fsv, i as int),
            decreases self.authority.facts.len() - i,
        {
            assert(fsv[i as int] == self.authority.facts@[i as int]@);
            let mut fw = render_fact_exec(&self.authority.facts[i]);
            let ghost fwv = fw@;
            let ghost before = out@;
            out.append(&mut fw);
            proof {
                assert(render_facts(fsv, i as int) == fwv + render_facts(fsv, i + 1));
                assert(out@ =~= before + fwv);
                let total = render_facts(fsv, 0);
                let done_old = total.len() - render_facts(fsv, i as int).len();
                let done_new = total.len() - render_facts(fsv, i + 1).len();
                assert(total == total.subrange(0, done_old) + (fwv + render_facts(fsv, i + 1)));
                assert(total.subrange(0, done_new) =~= total.subrange(0, done_old) + fwv);
                assert(total == total.subrange(0, done_new) + render_facts(fsv, i + 1));
            }
            i += 1;
        }
        proof {
            assert(render_facts(fsv, fsv.len() as int) =~= Seq::<u8>::empty());
            assert(render_facts(fsv, 0).subrange(0, render_facts(fsv, 0).len() as int)
                =~= render_facts(fsv, 0));
        }
        let mut bd = dec_exec(self.blocks.len() as u64);
        out.append(&mut bd);
        out.push(10);
        assert(out@ =~= render_token(tv));
        proof {
            lemma_render_token_ascii(tv);
        }
        string_from_ascii(out)
    }

    /// A verifier borrowing this token; nothing is copied or mutated.
    pub fn authorizer(&self) -> (v: authorizer::Verifier<'_>)
        ensures
            v.token == self,
            crate::builder::bfacts_view(v.facts@) == Seq::<crate::builder::BuilderPredicateV>::empty(),
            crate::builder::brules_view(v.rules@) == Seq::<crate::builder::BuilderRuleV>::empty(),
            crate::builder::brules_view(v.caveats@) == Seq::<crate::builder::BuilderRuleV>::empty(),
    {
        authorizer::Verifier::new(self)
    }
}

} // verus!
