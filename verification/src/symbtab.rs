//! The symbol table: one canonical token per lexeme, in the order in which
//! the lexemes were first seen.
use vstd::prelude::*;
use crate::tokens::{Token, TokenType, TokenView};

verus! {

/// What the table holds: pairs of a key and the token recorded under it,
/// oldest first.
pub type Entries = Seq<(Seq<char>, TokenView)>;

/// The index of the entry with the given key, or the length of the table
/// where there is none.
pub open spec fn position(t: Entries, key: Seq<char>) -> int
    decreases t.len(),
{
    if t.len() == 0 {
        0
    } else if t[0].0 == key {
        0
    } else {
        1 + position(t.drop_first(), key)
    }
}

/// True when an entry has the given key.
pub open spec fn has_key(t: Entries, key: Seq<char>) -> bool {
    position(t, key) < t.len()
}

/// The token recorded under the given key.
pub open spec fn lookup(t: Entries, key: Seq<char>) -> TokenView
    recommends
        has_key(t, key),
{
    t[position(t, key)].1
}

/// The table with `token` recorded under `key`, in the place of what was
/// recorded there or else as the newest entry.
pub open spec fn put(t: Entries, key: Seq<char>, token: TokenView) -> Entries {
    if has_key(t, key) {
        t.update(position(t, key), (key, token))
    } else {
        t.push((key, token))
    }
}

/// The table that results from recording tokens one after another, each
/// under its own lexeme.
pub open spec fn put_all(tokens: Seq<TokenView>) -> Entries
    decreases tokens.len(),
{
    if tokens.len() == 0 {
        Seq::empty()
    } else {
        put(put_all(tokens.drop_last()), tokens.last().lexeme, tokens.last())
    }
}

/// No key occurs twice.
pub open spec fn unique_keys(t: Entries) -> bool {
    forall|i: int, j: int| 0 <= i < j < t.len() ==> (#[trigger] t[i]).0 != (#[trigger] t[j]).0
}

/// How many of the first `n` entries are plain identifiers.
pub open spec fn idents_before(t: Entries, n: int) -> nat
    decreases n,
{
    if n <= 0 || n > t.len() {
        0
    } else if t[n - 1].1.kind == TokenType::Ident {
        idents_before(t, n - 1) + 1
    } else {
        idents_before(t, n - 1)
    }
}

/// How many entries are plain identifiers.
pub open spec fn ident_count(t: Entries) -> nat {
    idents_before(t, t.len() as int)
}

/// A plain identifier after its promotion to a variable at `addr`.
pub open spec fn promoted(
    token: TokenView,
    kind: TokenType,
    addr: u32,
    range: Option<(u32, u32)>,
) -> TokenView {
    TokenView {
        kind: kind,
        addr: Some(addr),
        low: match range {
            Some(r) => Some(r.0),
            None => token.low,
        },
        high: match range {
            Some(r) => Some(r.1),
            None => token.high,
        },
        ..token
    }
}

/// The table after every plain identifier has been promoted: the oldest to
/// `start`, each further one `stride` bytes behind the one before. Other
/// entries stay as they are.
pub open spec fn promote_all(
    t: Entries,
    kind: TokenType,
    start: u32,
    stride: u32,
    range: Option<(u32, u32)>,
) -> Entries {
    Seq::new(
        t.len(),
        |i: int|
            if t[i].1.kind == TokenType::Ident {
                (t[i].0, promoted(t[i].1, kind, (start + idents_before(t, i) * stride) as u32, range))
            } else {
                t[i]
            },
    )
}

/// An entry at `i` with the key, and none before it, fixes the position.
pub proof fn lemma_position(t: Entries, key: Seq<char>, i: int)
    requires
        0 <= i <= t.len(),
        forall|j: int| 0 <= j < i ==> (#[trigger] t[j]).0 != key,
        i < t.len() ==> t[i].0 == key,
    ensures
        position(t, key) == i,
    decreases t.len(),
{
    if i > 0 {
        assert(t[0].0 != key);
        let rest = t.drop_first();
        assert forall|j: int| 0 <= j < i - 1 implies (#[trigger] rest[j]).0 != key by {
            assert(t[j + 1].0 != key);
        }
        lemma_position(rest, key, i - 1);
    }
}

/// The position is that of the first entry with the key.
pub proof fn lemma_position_is_first(t: Entries, key: Seq<char>)
    ensures
        0 <= position(t, key) <= t.len(),
        forall|j: int| 0 <= j < position(t, key) ==> (#[trigger] t[j]).0 != key,
        position(t, key) < t.len() ==> t[position(t, key)].0 == key,
    decreases t.len(),
{
    if t.len() > 0 && t[0].0 != key {
        let rest = t.drop_first();
        lemma_position_is_first(rest, key);
        assert forall|j: int| 0 <= j < position(t, key) implies (#[trigger] t[j]).0 != key by {
            if j > 0 {
                assert(rest[j - 1].0 != key);
            }
        }
    }
}

/// Recording a token keeps the keys unique.
pub proof fn lemma_put_unique(t: Entries, key: Seq<char>, token: TokenView)
    requires
        unique_keys(t),
    ensures
        unique_keys(put(t, key, token)),
        has_key(put(t, key, token), key),
        lookup(put(t, key, token), key) == token,
{
    lemma_position_is_first(t, key);
    let p = position(t, key);
    let u = put(t, key, token);
    assert forall|i: int, j: int| 0 <= i < j < u.len() implies (#[trigger] u[i]).0 != (
    #[trigger] u[j]).0 by {
        if has_key(t, key) {
            assert(t[i].0 != t[j].0);
        } else if j < t.len() {
            assert(t[i].0 != t[j].0);
        } else {
            assert(t[i].0 != key);
        }
    }
    assert forall|j: int| 0 <= j < p implies (#[trigger] u[j]).0 != key by {
        assert(t[j].0 != key);
    }
    lemma_position(u, key, p);
}

/// A key that the table lacks is found in the place where it is added.
pub proof fn lemma_push_has_key(t: Entries, key: Seq<char>, token: TokenView)
    requires
        !has_key(t, key),
    ensures
        position(t.push((key, token)), key) == t.len(),
        has_key(t.push((key, token)), key),
        lookup(t.push((key, token)), key) == token,
{
    lemma_position_is_first(t, key);
    let u = t.push((key, token));
    assert forall|j: int| 0 <= j < t.len() implies (#[trigger] u[j]).0 != key by {
        assert(t[j].0 != key);
    }
    lemma_position(u, key, t.len() as int);
}

/// The count of plain identifiers grows with the number of entries counted.
pub proof fn lemma_idents_before_monotonic(t: Entries, m: int, n: int)
    requires
        0 <= m <= n <= t.len(),
    ensures
        idents_before(t, m) <= idents_before(t, n),
        idents_before(t, n) <= n,
    decreases n,
{
    if m < n {
        lemma_idents_before_monotonic(t, m, n - 1);
    } else if n > 0 {
        lemma_idents_before_monotonic(t, m - 1, n - 1);
    }
}

/// The symbol table.
#[derive(Debug)]
pub struct SymbTab {
    pub table: Vec<(String, Token)>,
}

impl View for SymbTab {
    type V = Entries;

    open spec fn view(&self) -> Entries {
        Seq::new(self.table@.len(), |i: int| (self.table@[i].0@, self.table@[i].1@))
    }
}

impl SymbTab {
    /// The table's invariant: no key occurs twice.
    pub open spec fn wf(&self) -> bool {
        unique_keys(self@)
    }

    /// A table that holds the given tokens, each under its lexeme; of two
    /// with one lexeme the later one stays.
    pub fn new(pairs: Vec<Token>) -> (t: SymbTab)
        ensures
            t.wf(),
            t@ == put_all(pairs@.map_values(|p: Token| p@)),
    {
        let mut t = SymbTab { table: Vec::new() };
        let ghost views = pairs@.map_values(|p: Token| p@);
        assert(t@ =~= put_all(views.take(0)));
        let mut i: usize = 0;
        while i < pairs.len()
            invariant
                i <= pairs@.len(),
                views == pairs@.map_values(|p: Token| p@),
                t.wf(),
                t@ == put_all(views.take(i as int)),
            decreases pairs@.len() - i,
        {
            let p = pairs[i].clone();
            proof {
                assert(views.take(i + 1).drop_last() =~= views.take(i as int));
                assert(views.take(i + 1).last() == p@);
            }
            let key = p.token_value.clone();
            t.put(key, p);
            i = i + 1;
        }
        assert(views.take(i as int) =~= views);
        t
    }

    /// The index of the entry under `key`, or the number of entries.
    fn find(&self, key: &String) -> (i: usize)
        ensures
            i == position(self@, key@),
            i <= self.table@.len(),
    {
        let mut i: usize = 0;
        while i < self.table.len()
            invariant
                i <= self.table@.len(),
                forall|j: int| 0 <= j < i ==> (#[trigger] self@[j]).0 != key@,
            decreases self.table@.len() - i,
        {
            if self.table[i].0 == *key {
                proof {
                    lemma_position(self@, key@, i as int);
                }
                return i;
            }
            i = i + 1;
        }
        proof {
            lemma_position(self@, key@, i as int);
        }
        i
    }

    /// Records `token` under `key`, in the place of what was recorded there
    /// or else as the newest entry.
    fn put(&mut self, key: String, token: Token)
        ensures
            final(self)@ == put(old(self)@, key@, token@),
            old(self).wf() ==> final(self).wf(),
    {
        let i = self.find(&key);
        proof {
            lemma_put_unique_if(old(self)@, key@, token@);
        }
        if i < self.table.len() {
            self.table.set(i, (key, token));
        } else {
            self.table.push((key, token));
        }
        assert(self@ =~= put(old(self)@, key@, token@));
    }

    /// Adds the token under its lexeme unless the table has an entry for
    /// that lexeme already.
    pub fn add(&mut self, tok: Token)
        ensures
            final(self)@ == if has_key(old(self)@, tok@.lexeme) {
                old(self)@
            } else {
                old(self)@.push((tok@.lexeme, tok@))
            },
            old(self).wf() ==> final(self).wf(),
    {
        let i = self.find(&tok.token_value);
        if i == self.table.len() {
            proof {
                lemma_put_unique_if(old(self)@, tok@.lexeme, tok@);
            }
            let key = tok.token_value.clone();
            self.table.push((key, tok));
            assert(self@ =~= old(self)@.push((tok@.lexeme, tok@)));
        } else {
            assert(self@ =~= old(self)@);
        }
    }

    /// The token recorded under the lexeme of `tok`.
    pub fn get(&mut self, tok: Token) -> (found: Token)
        requires
            has_key(old(self)@, tok@.lexeme),
        ensures
            found@ == lookup(old(self)@, tok@.lexeme),
            *final(self) == *old(self),
    {
        let i = self.find(&tok.token_value);
        self.table[i].1.clone()
    }

    /// The number of entries that are plain identifiers.
    pub fn count_idents(&self) -> (n: usize)
        ensures
            n == ident_count(self@),
    {
        let mut n: usize = 0;
        let mut i: usize = 0;
        while i < self.table.len()
            invariant
                i <= self.table@.len(),
                n == idents_before(self@, i as int),
                n <= i,
            decreases self.table@.len() - i,
        {
            if self.table[i].1.token_type == TokenType::Ident {
                n = n + 1;
            }
            i = i + 1;
        }
        n
    }

    /// Promotes every plain identifier to kind `ttype`, and gives the
    /// oldest the address `starting_addr` and each further one an address
    /// `dsize` bytes behind the one before. Returns how many it promoted.
    pub fn set_idents_to(&mut self, ttype: TokenType, starting_addr: u32, dsize: u32) -> (count:
        u32)
        requires
            starting_addr + ident_count(old(self)@) * dsize <= u32::MAX,
            ident_count(old(self)@) <= u32::MAX,
        ensures
            count == ident_count(old(self)@),
            final(self)@ == promote_all(old(self)@, ttype, starting_addr, dsize, None),
            old(self).wf() ==> final(self).wf(),
    {
        self.promote(ttype, starting_addr, dsize, None)
    }

    /// Promotes every plain identifier to kind `ttype` with the index range
    /// `lo` to `hi`, and gives the oldest the address `starting_addr` and
    /// each further one an address `dsize` bytes behind the one before.
    /// Returns how many it promoted.
    pub fn set_idents_to_arr(
        &mut self,
        ttype: TokenType,
        starting_addr: u32,
        dsize: u32,
        lo: u32,
        hi: u32,
    ) -> (count: u32)
        requires
            starting_addr + ident_count(old(self)@) * dsize <= u32::MAX,
            ident_count(old(self)@) <= u32::MAX,
        ensures
            count == ident_count(old(self)@),
            final(self)@ == promote_all(old(self)@, ttype, starting_addr, dsize, Some((lo, hi))),
            old(self).wf() ==> final(self).wf(),
    {
        self.promote(ttype, starting_addr, dsize, Some((lo, hi)))
    }

    fn promote(
        &mut self,
        ttype: TokenType,
        starting_addr: u32,
        dsize: u32,
        range: Option<(u32, u32)>,
    ) -> (count: u32)
        requires
            starting_addr + ident_count(old(self)@) * dsize <= u32::MAX,
            ident_count(old(self)@) <= u32::MAX,
        ensures
            count == ident_count(old(self)@),
            final(self)@ == promote_all(old(self)@, ttype, starting_addr, dsize, range),
            old(self).wf() ==> final(self).wf(),
    {
        let ghost before = self@;
        let ghost after = promote_all(before, ttype, starting_addr, dsize, range);
        let mut count: u32 = 0;
        let mut addr: u32 = starting_addr;
        let mut i: usize = 0;
        while i < self.table.len()
            invariant
                before == old(self)@,
                after == promote_all(before, ttype, starting_addr, dsize, range),
                self@.len() == before.len(),
                i <= before.len(),
                count == idents_before(before, i as int),
                addr == starting_addr + count * dsize,
                starting_addr + ident_count(before) * dsize <= u32::MAX,
                ident_count(before) <= u32::MAX,
                forall|j: int| 0 <= j < i ==> #[trigger] self@[j] == after[j],
                forall|j: int| i <= j < before.len() ==> #[trigger] self@[j] == before[j],
            decreases before.len() - i,
        {
            assert(self@[i as int] == before[i as int]);
            if self.table[i].1.token_type == TokenType::Ident {
                proof {
                    lemma_idents_before_monotonic(before, i + 1, before.len() as int);
                    let c = count as int;
                    let total = ident_count(before) as int;
                    let d = dsize as int;
                    assert((c + 1) * d <= total * d) by (nonlinear_arith)
                        requires
                            c + 1 <= total,
                            0 <= d,
                    ;
                    assert((c + 1) * d == c * d + d) by (nonlinear_arith);
                }
                let key = self.table[i].0.clone();
                let mut new = self.table[i].1.clone();
                new.token_type = ttype;
                new.token_addr = Some(addr);
                match range {
                    Some(r) => {
                        new.low = Some(r.0);
                        new.high = Some(r.1);
                    },
                    None => {},
                }
                let ghost prev = self@;
                self.table.set(i, (key, new));
                assert forall|j: int| 0 <= j < i + 1 implies #[trigger] self@[j] == after[j] by {
                    if j < i {
                        assert(prev[j] == after[j]);
                    }
                }
                assert forall|j: int| i + 1 <= j < before.len() implies #[trigger] self@[j]
                    == before[j] by {
                    assert(prev[j] == before[j]);
                }
                count = count + 1;
                addr = addr + dsize;
            }
            i = i + 1;
        }
        assert(self@ =~= after);
        proof {
            if old(self).wf() {
                assert forall|a: int, b: int| 0 <= a < b < after.len() implies (#[trigger] after[a]).0
                    != (#[trigger] after[b]).0 by {
                    assert(before[a].0 != before[b].0);
                }
            }
        }
        count
    }

    /// Records a copy of `new` under the lexeme of `tok`, in the place of
    /// what was recorded there or else as the newest entry.
    pub fn set_entry(&mut self, tok: &Token, new: &Token)
        ensures
            final(self)@ == put(old(self)@, tok@.lexeme, new@),
            old(self).wf() ==> final(self).wf(),
    {
        let key = tok.token_value.clone();
        let updated = new.clone();
        self.put(key, updated);
    }

    /// The address of the token recorded under the lexeme of `tok`.
    pub fn get_addr(&mut self, tok: &Token) -> (addr: Option<u32>)
        requires
            has_key(old(self)@, tok@.lexeme),
        ensures
            addr == lookup(old(self)@, tok@.lexeme).addr,
            *final(self) == *old(self),
    {
        let i = self.find(&tok.token_value);
        self.table[i].1.token_addr
    }
}

/// Recording a token keeps the keys unique where they were.
proof fn lemma_put_unique_if(t: Entries, key: Seq<char>, token: TokenView)
    ensures
        unique_keys(t) ==> unique_keys(put(t, key, token)),
{
    if unique_keys(t) {
        lemma_put_unique(t, key, token);
    }
}

} // verus!
