//! Reference-data store: a table of token records keyed by address,
//! with batch upsert and capped substring search. The table lives in
//! memory here; whoever persists it mirrors these operations onto the
//! durable table row for row.

use vstd::prelude::*;

verus! {

broadcast use vstd::prelude::Seq::group_seq_extra;

/// One token of the reference dataset, as fetched from the remote list.
#[derive(Debug)]
pub struct JupiterToken {
    pub address: String,
    pub chain_id: i32,
    pub decimals: i32,
    pub name: String,
    pub symbol: String,
    pub logo_uri: Option<String>,
    pub tags: Option<Vec<String>>,
}

/// Mathematical image of a [`JupiterToken`].
pub ghost struct TokenV {
    pub address: Seq<char>,
    pub chain_id: int,
    pub decimals: int,
    pub name: Seq<char>,
    pub symbol: Seq<char>,
    pub logo_uri: Option<Seq<char>>,
    pub tags: Option<Seq<Seq<char>>>,
}

impl View for JupiterToken {
    type V = TokenV;

    open spec fn view(&self) -> TokenV {
        TokenV {
            address: self.address@,
            chain_id: self.chain_id as int,
            decimals: self.decimals as int,
            name: self.name@,
            symbol: self.symbol@,
            logo_uri: match self.logo_uri {
                Some(s) => Some(s@),
                None => None,
            },
            tags: self.tags.deep_view(),
        }
    }
}

/// One persisted row: the token's fields (tags are not persisted) and
/// the time it was last written.
#[derive(Debug)]
pub struct TokenRow {
    pub address: String,
    pub chain_id: i32,
    pub decimals: i32,
    pub name: String,
    pub symbol: String,
    pub logo_uri: Option<String>,
    pub last_updated: u64,
}

/// Mathematical image of a [`TokenRow`].
pub ghost struct RowV {
    pub address: Seq<char>,
    pub chain_id: int,
    pub decimals: int,
    pub name: Seq<char>,
    pub symbol: Seq<char>,
    pub logo_uri: Option<Seq<char>>,
    pub last_updated: u64,
}

impl View for TokenRow {
    type V = RowV;

    open spec fn view(&self) -> RowV {
        RowV {
            address: self.address@,
            chain_id: self.chain_id as int,
            decimals: self.decimals as int,
            name: self.name@,
            symbol: self.symbol@,
            logo_uri: match self.logo_uri {
                Some(s) => Some(s@),
                None => None,
            },
            last_updated: self.last_updated,
        }
    }
}

/// The row a token is persisted as at time `now`.
pub open spec fn row_of(t: TokenV, now: u64) -> RowV {
    RowV {
        address: t.address,
        chain_id: t.chain_id,
        decimals: t.decimals,
        name: t.name,
        symbol: t.symbol,
        logo_uri: t.logo_uri,
        last_updated: now,
    }
}

/// The token a row is read back as; tags are not persisted.
pub open spec fn token_of_row(r: RowV) -> TokenV {
    TokenV {
        address: r.address,
        chain_id: r.chain_id,
        decimals: r.decimals,
        name: r.name,
        symbol: r.symbol,
        logo_uri: r.logo_uri,
        tags: None,
    }
}

/// The index of the first row with the given address, or -1.
pub open spec fn find_addr(rows: Seq<RowV>, addr: Seq<char>) -> int
    decreases rows.len(),
{
    if rows.len() == 0 {
        -1
    } else if rows[0].address == addr {
        0
    } else {
        let r = find_addr(rows.drop_first(), addr);
        if r < 0 {
            -1
        } else {
            1 + r
        }
    }
}

pub proof fn lemma_find_addr(rows: Seq<RowV>, addr: Seq<char>)
    ensures
        -1 <= find_addr(rows, addr) < rows.len(),
        find_addr(rows, addr) >= 0 ==> rows[find_addr(rows, addr)].address == addr,
        find_addr(rows, addr) == -1 ==> forall|k: int|
            0 <= k < rows.len() ==> rows[k].address != addr,
        forall|k: int| 0 <= k < find_addr(rows, addr) ==> rows[k].address != addr,
    decreases rows.len(),
{
    if rows.len() > 0 && rows[0].address != addr {
        let rest = rows.drop_first();
        lemma_find_addr(rest, addr);
        if find_addr(rest, addr) == -1 {
            assert forall|k: int| 0 <= k < rows.len() implies rows[k].address != addr by {
                if k > 0 {
                    assert(rest[k - 1] == rows[k]);
                }
            }
        }
        assert forall|k: int| 0 <= k < find_addr(rows, addr) implies rows[k].address != addr by {
            if k > 0 {
                assert(rest[k - 1] == rows[k]);
            }
        }
    }
}

/// A row list whose addresses are pairwise distinct: the table's
/// primary-key invariant.
pub open spec fn distinct_addrs(rows: Seq<RowV>) -> bool {
    forall|i: int, j: int|
        0 <= i < j < rows.len() ==> (#[trigger] rows[i]).address != (#[trigger] rows[j]).address
}

/// Insert-or-replace of one token: a row with the same address is
/// replaced in place, otherwise a new row is appended; either way its
/// `last_updated` becomes `now`.
pub open spec fn upsert_row(rows: Seq<RowV>, t: TokenV, now: u64) -> Seq<RowV> {
    let i = find_addr(rows, t.address);
    if i >= 0 {
        rows.update(i, row_of(t, now))
    } else {
        rows.push(row_of(t, now))
    }
}

/// The whole batch applied in order, earlier tokens first, so a later
/// duplicate address wins.
pub open spec fn upsert_all(rows: Seq<RowV>, ts: Seq<TokenV>, now: u64) -> Seq<RowV>
    decreases ts.len(),
{
    if ts.len() == 0 {
        rows
    } else {
        upsert_row(upsert_all(rows, ts.drop_last(), now), ts.last(), now)
    }
}

pub proof fn lemma_upsert_row_wf(rows: Seq<RowV>, t: TokenV, now: u64)
    requires
        distinct_addrs(rows),
    ensures
        distinct_addrs(upsert_row(rows, t, now)),
        upsert_row(rows, t, now).len() >= rows.len(),
{
    lemma_find_addr(rows, t.address);
    let i = find_addr(rows, t.address);
    let out = upsert_row(rows, t, now);
    if i >= 0 {
        assert forall|p: int, q: int| 0 <= p < q < out.len() implies (#[trigger] out[p]).address != (
        #[trigger] out[q]).address by {
            assert(rows[p].address != rows[q].address);
        }
    } else {
        assert forall|p: int, q: int| 0 <= p < q < out.len() implies (#[trigger] out[p]).address != (
        #[trigger] out[q]).address by {
            if q < rows.len() {
                assert(rows[p].address != rows[q].address);
            } else {
                assert(rows[p].address != t.address);
            }
        }
    }
}

pub proof fn lemma_upsert_all_wf(rows: Seq<RowV>, ts: Seq<TokenV>, now: u64)
    requires
        distinct_addrs(rows),
    ensures
        distinct_addrs(upsert_all(rows, ts, now)),
    decreases ts.len(),
{
    if ts.len() > 0 {
        lemma_upsert_all_wf(rows, ts.drop_last(), now);
        lemma_upsert_row_wf(upsert_all(rows, ts.drop_last(), now), ts.last(), now);
    }
}

/// The reference-data table: rows keyed by address, kept in insertion
/// order.
pub struct TokenDatabase {
    rows: Vec<TokenRow>,
}

impl View for TokenDatabase {
    type V = Seq<RowV>;

    closed spec fn view(&self) -> Seq<RowV> {
        self.rows@.map_values(|r: TokenRow| r@)
    }
}

impl TokenDatabase {
    /// The primary-key invariant: addresses are unique.
    pub open spec fn wf(&self) -> bool {
        distinct_addrs(self@)
    }

    /// Opens an empty table; creating the durable table is the caller's
    /// concern and cannot fail here.
    pub fn new() -> (r: Result<TokenDatabase, String>)
        ensures
            r matches Ok(db) && db@ =~= Seq::<RowV>::empty() && db.wf(),
    {
        Ok(TokenDatabase { rows: Vec::new() })
    }

    /// Number of rows, used to decide whether a cold-start seed is due.
    pub fn count(&self) -> (n: usize)
        ensures
            n == self@.len(),
    {
        self.rows.len()
    }

    /// True exactly when the table is empty and a seeding fetch is due.
    pub fn needs_seed(&self) -> (r: bool)
        ensures
            r == (self@.len() == 0),
    {
        self.rows.len() == 0
    }

    fn position_of(&self, addr: &String) -> (r: Option<usize>)
        ensures
            match r {
                Some(i) => i < self@.len() && find_addr(self@, addr@) == i as int,
                None => find_addr(self@, addr@) == -1,
            },
    {
        let mut i: usize = 0;
        while i < self.rows.len()
            invariant
                i <= self.rows.len(),
                self.rows.len() == self@.len(),
                forall|k: int| 0 <= k < i ==> (#[trigger] self@[k]).address != addr@,
            decreases self.rows.len() - i,
        {
            proof {
                assert(self@[i as int] == self.rows@[i as int]@);
            }
            if self.rows[i].address == *addr {
                proof {
                    lemma_find_addr_at(self@, addr@, i as int);
                }
                return Some(i);
            }
            i = i + 1;
        }
        proof {
            lemma_find_addr_at(self@, addr@, self@.len() as int);
        }
        None
    }

    fn upsert_one(&mut self, t: &JupiterToken, now: u64)
        ensures
            final(self)@ == upsert_row(old(self)@, t@, now),
    {
        let row = row_from_token(t, now);
        proof {
            assert(self@.len() == self.rows@.len());
        }
        match self.position_of(&t.address) {
            Some(i) => {
                let slot = &mut self.rows[i];
                *slot = row;
                assert(self@ =~= upsert_row(old(self)@, t@, now));
            },
            None => {
                self.rows.push(row);
                assert(self@ =~= upsert_row(old(self)@, t@, now));
            },
        }
    }

    /// Applies a whole batch as one unit: each token is inserted or, on
    /// an address conflict, fully replaces the prior row, with
    /// `last_updated` set to `now`. Nothing can abort the in-memory
    /// application, so the batch always fully applies.
    pub fn upsert_many(&mut self, tokens: &Vec<JupiterToken>, now: u64) -> (r: Result<
        (),
        String,
    >)
        requires
            old(self).wf(),
        ensures
            r is Ok,
            final(self)@ == upsert_all(old(self)@, tokens@.map_values(|t: JupiterToken| t@), now),
            final(self).wf(),
    {
        let ghost rows0 = self@;
        let ghost tv = tokens@.map_values(|t: JupiterToken| t@);
        let mut i: usize = 0;
        while i < tokens.len()
            invariant
                i <= tokens.len(),
                tv == tokens@.map_values(|t: JupiterToken| t@),
                tv.len() == tokens.len(),
                self@ == upsert_all(rows0, tv.take(i as int), now),
                distinct_addrs(rows0),
            decreases tokens.len() - i,
        {
            self.upsert_one(&tokens[i], now);
            proof {
                assert(tv.take(i + 1).drop_last() =~= tv.take(i as int));
                assert(tv.take(i + 1).last() == tv[i as int]);
                assert(tokens@[i as int]@ == tv[i as int]);
            }
            i = i + 1;
        }
        proof {
            assert(tv.take(tokens.len() as int) =~= tv);
            lemma_upsert_all_wf(rows0, tv, now);
        }
        Ok(())
    }

    /// Every row, read back as a token; tags are not persisted, so each
    /// comes back without them.
    pub fn get_all_tokens(&self) -> (r: Result<Vec<JupiterToken>, String>)
        ensures
            r matches Ok(v) && v@.map_values(|t: JupiterToken| t@) == self@.map_values(
                |row: RowV| token_of_row(row),
            ),
    {
        let mut out: Vec<JupiterToken> = Vec::new();
        let mut i: usize = 0;
        while i < self.rows.len()
            invariant
                i <= self.rows.len(),
                self.rows.len() == self@.len(),
                out@.map_values(|t: JupiterToken| t@) == self@.take(i as int).map_values(
                    |row: RowV| token_of_row(row),
                ),
            decreases self.rows.len() - i,
        {
            out.push(token_from_row(&self.rows[i]));
            proof {
                assert(self@.take(i + 1) =~= self@.take(i as int).push(self@[i as int]));
                assert(out@.map_values(|t: JupiterToken| t@) =~= self@.take(i + 1).map_values(
                    |row: RowV| token_of_row(row),
                ));
            }
            i = i + 1;
        }
        proof {
            assert(self@.take(self@.len() as int) =~= self@);
        }
        Ok(out)
    }

    /// The stored rows in storage order, timestamps included.
    pub fn rows(&self) -> (r: &Vec<TokenRow>)
        ensures
            r@.map_values(|row: TokenRow| row@) == self@,
    {
        &self.rows
    }

    /// The rows matching `query` under `mode`, in storage order, capped
    /// at ten and read back as tokens. Reads only this table; nothing
    /// here can reach the network.
    pub fn search(&self, query: &str, mode: SearchMode) -> (r: Vec<JupiterToken>)
        ensures
            r@.map_values(|t: JupiterToken| t@) == cap10(
                self@.filter(|row: RowV| row_matches(row, query@, mode)).map_values(
                    |row: RowV| token_of_row(row),
                ),
            ),
            r@.len() <= 10,
    {
        let ghost pred = |row: RowV| row_matches(row, query@, mode);
        let ghost conv = |row: RowV| token_of_row(row);
        let mut out: Vec<JupiterToken> = Vec::new();
        let mut i: usize = 0;
        while i < self.rows.len()
            invariant
                i <= self.rows.len(),
                self.rows.len() == self@.len(),
                pred == (|row: RowV| row_matches(row, query@, mode)),
                conv == (|row: RowV| token_of_row(row)),
                out@.map_values(|t: JupiterToken| t@) == cap10(
                    self@.take(i as int).filter(pred).map_values(conv),
                ),
                out@.len() <= 10,
            decreases self.rows.len() - i,
        {
            let ghost pre = self@.take(i as int).filter(pred);
            proof {
                assert(self@[i as int] == self.rows@[i as int]@);
                assert(self@.take(i + 1) =~= self@.take(i as int).push(self@[i as int]));
                self@.take(i as int).lemma_filter_push(self@[i as int], pred);
            }
            if row_matches_exec(&self.rows[i], query, &mode) && out.len() < 10 {
                proof {
                    assert(out@.map_values(|t: JupiterToken| t@).len() == out@.len());
                    assert(pre.map_values(conv).len() < 10);
                }
                out.push(token_from_row(&self.rows[i]));
                proof {
                    assert(out@.map_values(|t: JupiterToken| t@) =~= cap10(
                        self@.take(i + 1).filter(pred).map_values(conv),
                    ));
                }
            } else {
                proof {
                    if pred(self@[i as int]) {
                        assert(pre.map_values(conv).len() >= 10);
                        assert(out@.map_values(|t: JupiterToken| t@) =~= cap10(
                            self@.take(i + 1).filter(pred).map_values(conv),
                        ));
                    } else {
                        assert(self@.take(i + 1).filter(pred) == pre);
                    }
                }
            }
            i = i + 1;
        }
        proof {
            assert(self@.take(self@.len() as int) =~= self@);
        }
        out
    }

    /// Case-sensitive substring search over addresses, capped at ten.
    pub fn search_by_address(&self, query: String) -> (r: Result<Vec<JupiterToken>, String>)
        ensures
            r matches Ok(v) && v@.map_values(|t: JupiterToken| t@) == cap10(
                self@.filter(|row: RowV| row_matches(row, query@, SearchMode::Address)).map_values(
                    |row: RowV| token_of_row(row),
                ),
            ) && v@.len() <= 10,
    {
        Ok(self.search(query.as_str(), SearchMode::Address))
    }

    /// ASCII-case-insensitive substring search over names, capped at
    /// ten.
    pub fn search_by_name(&self, query: String) -> (r: Result<Vec<JupiterToken>, String>)
        ensures
            r matches Ok(v) && v@.map_values(|t: JupiterToken| t@) == cap10(
                self@.filter(|row: RowV| row_matches(row, query@, SearchMode::Name)).map_values(
                    |row: RowV| token_of_row(row),
                ),
            ) && v@.len() <= 10,
    {
        Ok(self.search(query.as_str(), SearchMode::Name))
    }

    /// Search matching either the name (case-insensitively) or the
    /// address (case-sensitively), capped at ten.
    pub fn search_by_any(&self, query: String) -> (r: Result<Vec<JupiterToken>, String>)
        ensures
            r matches Ok(v) && v@.map_values(|t: JupiterToken| t@) == cap10(
                self@.filter(|row: RowV| row_matches(row, query@, SearchMode::Any)).map_values(
                    |row: RowV| token_of_row(row),
                ),
            ) && v@.len() <= 10,
    {
        Ok(self.search(query.as_str(), SearchMode::Any))
    }
}

proof fn lemma_find_addr_at(rows: Seq<RowV>, addr: Seq<char>, i: int)
    requires
        0 <= i <= rows.len(),
        forall|k: int| 0 <= k < i ==> (#[trigger] rows[k]).address != addr,
        i < rows.len() ==> rows[i].address == addr,
    ensures
        find_addr(rows, addr) == if i == rows.len() {
            -1int
        } else {
            i
        },
    decreases rows.len(),
{
    if rows.len() > 0 && i > 0 {
        lemma_find_addr_at(rows.drop_first(), addr, i - 1);
    }
}

/// ASCII case folding, the folding the storage engine's queries used.
pub open spec fn lower_char(c: char) -> char {
    if 'A' <= c && c <= 'Z' {
        ((c as u8) + 32) as char
    } else {
        c
    }
}

/// Character comparison, optionally up to ASCII case.
pub open spec fn chars_eq(a: char, b: char, fold_case: bool) -> bool {
    if fold_case {
        lower_char(a) == lower_char(b)
    } else {
        a == b
    }
}

/// Whether `needle` occurs in `hay` starting at position `i`.
pub open spec fn occurs_at(hay: Seq<char>, needle: Seq<char>, fold_case: bool, i: int) -> bool {
    &&& 0 <= i
    &&& i + needle.len() <= hay.len()
    &&& forall|k: int| 0 <= k < needle.len() ==> chars_eq(hay[i + k], needle[k], fold_case)
}

/// Substring match: `needle` occurs somewhere in `hay`, up to ASCII
/// case when `fold_case` is set.
pub open spec fn contains_sub(hay: Seq<char>, needle: Seq<char>, fold_case: bool) -> bool {
    exists|i: int| occurs_at(hay, needle, fold_case, i)
}

fn lower_char_exec(c: char) -> (r: char)
    ensures
        r == lower_char(c),
{
    if 'A' <= c && c <= 'Z' {
        ((c as u8) + 32) as char
    } else {
        c
    }
}

fn chars_eq_exec(a: char, b: char, fold_case: bool) -> (r: bool)
    ensures
        r == chars_eq(a, b, fold_case),
{
    if fold_case {
        lower_char_exec(a) == lower_char_exec(b)
    } else {
        a == b
    }
}

/// Substring search over characters, optionally folding ASCII case.
pub fn str_search(hay: &str, needle: &str, fold_case: bool) -> (r: bool)
    ensures
        r == contains_sub(hay@, needle@, fold_case),
{
    let h = hay.unicode_len();
    let n = needle.unicode_len();
    if n > h {
        assert(forall|i: int| !occurs_at(hay@, needle@, fold_case, i));
        return false;
    }
    let mut i: usize = 0;
    while i <= h - n
        invariant
            n <= h,
            h == hay@.len(),
            n == needle@.len(),
            i <= h - n + 1,
            forall|ii: int| 0 <= ii < i ==> !occurs_at(hay@, needle@, fold_case, ii),
        decreases h - n + 1 - i,
    {
        let mut j: usize = 0;
        let mut hit = true;
        while j < n
            invariant_except_break
                hit,
            invariant
                j <= n,
                i + n <= h,
                h == hay@.len(),
                n == needle@.len(),
                forall|k: int| 0 <= k < j ==> chars_eq(hay@[i + k], needle@[k], fold_case),
            ensures
                hit ==> j == n,
                hit ==> forall|k: int| 0 <= k < n ==> chars_eq(hay@[i + k], needle@[k], fold_case),
                !hit ==> !occurs_at(hay@, needle@, fold_case, i as int),
            decreases n - j,
        {
            if !chars_eq_exec(hay.get_char(i + j), needle.get_char(j), fold_case) {
                hit = false;
                break;
            }
            j = j + 1;
        }
        if hit {
            assert(occurs_at(hay@, needle@, fold_case, i as int));
            return true;
        }
        i = i + 1;
    }
    assert forall|ii: int| !occurs_at(hay@, needle@, fold_case, ii) by {
        if occurs_at(hay@, needle@, fold_case, ii) {
            assert(0 <= ii <= h - n);
        }
    }
    false
}

/// Which field a token search matches against.
pub enum SearchMode {
    /// Case-sensitive substring of the address.
    Address,
    /// ASCII-case-insensitive substring of the name.
    Name,
    /// Either of the two.
    Any,
}

/// The predicate a search applies to each row: a case-sensitive
/// substring of the address, a case-insensitive substring of the name,
/// or either.
pub open spec fn row_matches(row: RowV, q: Seq<char>, mode: SearchMode) -> bool {
    match mode {
        SearchMode::Address => contains_sub(row.address, q, false),
        SearchMode::Name => contains_sub(row.name, q, true),
        SearchMode::Any => contains_sub(row.name, q, true) || contains_sub(row.address, q, false),
    }
}

fn row_matches_exec(row: &TokenRow, q: &str, mode: &SearchMode) -> (r: bool)
    ensures
        r == row_matches(row@, q@, *mode),
{
    match mode {
        SearchMode::Address => str_search(row.address.as_str(), q, false),
        SearchMode::Name => str_search(row.name.as_str(), q, true),
        SearchMode::Any => str_search(row.name.as_str(), q, true) || str_search(
            row.address.as_str(),
            q,
            false,
        ),
    }
}

/// A result list capped at the first ten hits.
pub open spec fn cap10<A>(s: Seq<A>) -> Seq<A> {
    if s.len() <= 10 {
        s
    } else {
        s.take(10)
    }
}

/// The last token of the batch with the given address: the one whose
/// fields win when a batch is applied.
pub open spec fn last_token(ts: Seq<TokenV>, a: Seq<char>) -> Option<TokenV>
    decreases ts.len(),
{
    if ts.len() == 0 {
        None
    } else if ts.last().address == a {
        Some(ts.last())
    } else {
        last_token(ts.drop_last(), a)
    }
}

/// The row stored under address `a`, if any.
pub open spec fn row_at(rows: Seq<RowV>, a: Seq<char>) -> Option<RowV> {
    if find_addr(rows, a) >= 0 {
        Some(rows[find_addr(rows, a)])
    } else {
        None
    }
}

proof fn lemma_find_addr_of_distinct(rows: Seq<RowV>, a: Seq<char>, k: int)
    requires
        distinct_addrs(rows),
        0 <= k < rows.len(),
        rows[k].address == a,
    ensures
        find_addr(rows, a) == k,
{
    lemma_find_addr(rows, a);
    let m = find_addr(rows, a);
    if m != k {
        assert(rows[m].address == rows[k].address);
    }
}

proof fn lemma_upsert_row_at(rows: Seq<RowV>, t: TokenV, now: u64, a: Seq<char>)
    requires
        distinct_addrs(rows),
    ensures
        row_at(upsert_row(rows, t, now), a) == if a == t.address {
            Some(row_of(t, now))
        } else {
            row_at(rows, a)
        },
{
    lemma_find_addr(rows, t.address);
    lemma_find_addr(rows, a);
    let i = find_addr(rows, t.address);
    let out = upsert_row(rows, t, now);
    if a == t.address {
        if i >= 0 {
            lemma_find_addr_of_distinct(out, a, i);
        } else {
            lemma_find_addr_at(out, a, rows.len() as int);
        }
    } else {
        let j = find_addr(rows, a);
        if j >= 0 {
            assert(out[j].address == a);
            assert forall|k: int| 0 <= k < j implies (#[trigger] out[k]).address != a by {
                assert(rows[k].address != a);
            }
            lemma_find_addr_at(out, a, j);
        } else {
            assert forall|k: int| 0 <= k < out.len() implies (#[trigger] out[k]).address != a by {
                if k < rows.len() {
                    assert(rows[k].address != a);
                }
            }
            lemma_find_addr_at(out, a, out.len() as int);
        }
    }
}

proof fn lemma_upsert_all_at(rows: Seq<RowV>, ts: Seq<TokenV>, now: u64, a: Seq<char>)
    requires
        distinct_addrs(rows),
    ensures
        row_at(upsert_all(rows, ts, now), a) == match last_token(ts, a) {
            Some(t) => Some(row_of(t, now)),
            None => row_at(rows, a),
        },
    decreases ts.len(),
{
    if ts.len() > 0 {
        lemma_upsert_all_at(rows, ts.drop_last(), now, a);
        lemma_upsert_all_wf(rows, ts.drop_last(), now);
        lemma_upsert_row_at(upsert_all(rows, ts.drop_last(), now), ts.last(), now, a);
    }
}

proof fn lemma_last_token_present(ts: Seq<TokenV>, j: int)
    requires
        0 <= j < ts.len(),
    ensures
        last_token(ts, ts[j].address) is Some,
    decreases ts.len(),
{
    if ts.last().address != ts[j].address {
        lemma_last_token_present(ts.drop_last(), j);
    }
}

proof fn lemma_upsert_row_positions(rows: Seq<RowV>, t: TokenV, now: u64)
    requires
        distinct_addrs(rows),
        find_addr(rows, t.address) >= 0,
    ensures
        upsert_row(rows, t, now).len() == rows.len(),
        forall|k: int|
            0 <= k < rows.len() ==> (#[trigger] upsert_row(rows, t, now)[k]).address
                == rows[k].address,
{
    lemma_find_addr(rows, t.address);
}

proof fn lemma_upsert_all_positions(rows: Seq<RowV>, ts: Seq<TokenV>, now: u64)
    requires
        distinct_addrs(rows),
        forall|j: int| 0 <= j < ts.len() ==> find_addr(rows, (#[trigger] ts[j]).address) >= 0,
    ensures
        upsert_all(rows, ts, now).len() == rows.len(),
        forall|k: int|
            0 <= k < rows.len() ==> (#[trigger] upsert_all(rows, ts, now)[k]).address
                == rows[k].address,
    decreases ts.len(),
{
    if ts.len() > 0 {
        assert forall|j: int| 0 <= j < ts.drop_last().len() implies find_addr(
            rows,
            (#[trigger] ts.drop_last()[j]).address,
        ) >= 0 by {
            assert(ts.drop_last()[j] == ts[j]);
        }
        lemma_upsert_all_positions(rows, ts.drop_last(), now);
        lemma_upsert_all_wf(rows, ts.drop_last(), now);
        let mid = upsert_all(rows, ts.drop_last(), now);
        let a = ts.last().address;
        lemma_find_addr(rows, a);
        let j = find_addr(rows, a);
        assert(find_addr(rows, (ts[ts.len() - 1]).address) >= 0);
        assert(mid[j].address == a);
        lemma_find_addr(mid, a);
        if find_addr(mid, a) == -1 {
            assert(mid[j].address != a);
        }
        lemma_upsert_row_positions(mid, ts.last(), now);
    }
}

/// Law: applying the same batch twice is idempotent. The second
/// application leaves the row count and every persisted field as after
/// the first; only `last_updated` moves, and where it moves it becomes
/// the second application's time.
pub proof fn lemma_upsert_idempotent(rows: Seq<RowV>, batch: Seq<TokenV>, now1: u64, now2: u64)
    requires
        distinct_addrs(rows),
    ensures
        ({
            let once = upsert_all(rows, batch, now1);
            let twice = upsert_all(once, batch, now2);
            &&& twice.len() == once.len()
            &&& forall|k: int|
                0 <= k < once.len() ==> token_of_row(#[trigger] twice[k]) == token_of_row(once[k])
            &&& forall|k: int|
                0 <= k < once.len() ==> (#[trigger] twice[k]).last_updated == once[k].last_updated
                    || twice[k].last_updated == now2
        }),
{
    let once = upsert_all(rows, batch, now1);
    let twice = upsert_all(once, batch, now2);
    lemma_upsert_all_wf(rows, batch, now1);
    lemma_upsert_all_wf(once, batch, now2);
    assert forall|j: int| 0 <= j < batch.len() implies find_addr(
        once,
        (#[trigger] batch[j]).address,
    ) >= 0 by {
        lemma_last_token_present(batch, j);
        lemma_upsert_all_at(rows, batch, now1, batch[j].address);
        lemma_find_addr(once, batch[j].address);
    }
    lemma_upsert_all_positions(once, batch, now2);
    assert forall|k: int| 0 <= k < once.len() implies token_of_row(#[trigger] twice[k])
        == token_of_row(once[k]) && (twice[k].last_updated == once[k].last_updated
        || twice[k].last_updated == now2) by {
        let a = once[k].address;
        lemma_find_addr_of_distinct(once, a, k);
        assert(twice[k].address == a);
        lemma_find_addr_of_distinct(twice, a, k);
        lemma_upsert_all_at(once, batch, now2, a);
        lemma_upsert_all_at(rows, batch, now1, a);
        assert(row_at(once, a) == Some(once[k]));
        assert(row_at(twice, a) == Some(twice[k]));
    }
}

/// A batch whose addresses are pairwise distinct, as a well-formed
/// remote dataset is.
pub open spec fn batch_distinct(ts: Seq<TokenV>) -> bool {
    forall|i: int, j: int|
        0 <= i < j < ts.len() ==> (#[trigger] ts[i]).address != (#[trigger] ts[j]).address
}

/// Law: seeding an empty table with a batch of distinct addresses
/// stores exactly the batch, row for row in order, and reading it back
/// returns exactly the fetched tokens (without their tags, which are
/// not persisted).
pub proof fn lemma_seed_on_empty(batch: Seq<TokenV>, now: u64)
    requires
        batch_distinct(batch),
    ensures
        upsert_all(Seq::empty(), batch, now) =~= batch.map_values(|t: TokenV| row_of(t, now)),
        upsert_all(Seq::empty(), batch, now).map_values(|r: RowV| token_of_row(r))
            =~= batch.map_values(|t: TokenV| token_of_row(row_of(t, now))),
    decreases batch.len(),
{
    if batch.len() > 0 {
        let prev = batch.drop_last();
        assert forall|i: int, j: int| 0 <= i < j < prev.len() implies (#[trigger] prev[i]).address
            != (#[trigger] prev[j]).address by {
            assert(prev[i] == batch[i] && prev[j] == batch[j]);
        }
        lemma_seed_on_empty(prev, now);
        let mid = upsert_all(Seq::empty(), prev, now);
        let a = batch.last().address;
        lemma_find_addr(mid, a);
        if find_addr(mid, a) >= 0 {
            let m = find_addr(mid, a);
            assert(mid[m] == prev.map_values(|t: TokenV| row_of(t, now))[m]);
            assert(batch[m].address == a);
            assert(batch[m].address == batch[batch.len() - 1].address);
        }
        assert(upsert_all(Seq::empty(), batch, now) =~= batch.map_values(
            |t: TokenV| row_of(t, now),
        ));
    }
}

fn clone_opt_string(o: &Option<String>) -> (r: Option<String>)
    ensures
        match r {
            Some(s) => o matches Some(x) && s@ == x@,
            None => o is None,
        },
{
    match o {
        Some(s) => Some(s.clone()),
        None => None,
    }
}

fn row_from_token(t: &JupiterToken, now: u64) -> (r: TokenRow)
    ensures
        r@ == row_of(t@, now),
{
    TokenRow {
        address: t.address.clone(),
        chain_id: t.chain_id,
        decimals: t.decimals,
        name: t.name.clone(),
        symbol: t.symbol.clone(),
        logo_uri: clone_opt_string(&t.logo_uri),
        last_updated: now,
    }
}

fn token_from_row(r: &TokenRow) -> (t: JupiterToken)
    ensures
        t@ == token_of_row(r@),
{
    JupiterToken {
        address: r.address.clone(),
        chain_id: r.chain_id,
        decimals: r.decimals,
        name: r.name.clone(),
        symbol: r.symbol.clone(),
        logo_uri: clone_opt_string(&r.logo_uri),
        tags: None,
    }
}

} // verus!
