//! Supervisor event-protocol codec: parsing of the whitespace-separated
//! `key:value` header lines that the process supervisor emits, and of the
//! event payloads whose first line uses the same shape.

use vstd::prelude::*;
use vstd::string::StringExecFns;

use crate::strutil::{find_char, first_index_from, is_wsp, is_wsp_char, lemma_first_index, str_eq};

verus! {

/// Left fold of the `split_whitespace` tokenizer: the pair of the tokens
/// completed so far and the (possibly empty) token still being read.
pub open spec fn ws_fold(s: Seq<char>) -> (Seq<Seq<char>>, Seq<char>)
    decreases s.len(),
{
    if s.len() == 0 {
        (Seq::<Seq<char>>::empty(), Seq::<char>::empty())
    } else {
        let prev = ws_fold(s.drop_last());
        let c = s.last();
        if is_wsp(c) {
            if prev.1.len() == 0 {
                prev
            } else {
                (prev.0.push(prev.1), Seq::<char>::empty())
            }
        } else {
            (prev.0, prev.1.push(c))
        }
    }
}

/// The maximal non-whitespace runs of `s`, exactly what
/// `str::split_whitespace` yields.
pub open spec fn split_ws(s: Seq<char>) -> Seq<Seq<char>> {
    let f = ws_fold(s);
    if f.1.len() == 0 {
        f.0
    } else {
        f.0.push(f.1)
    }
}

/// A token's `key:value` reading: split at the first colon; a token
/// without a colon carries no pair.
pub open spec fn token_pair(t: Seq<char>) -> Option<(Seq<char>, Seq<char>)> {
    match first_index_from(t, ':', 0) {
        Some(j) => Some((t.take(j), t.skip(j + 1))),
        None => None,
    }
}

/// Folds a token list into a key-to-value map; a key repeated later in the
/// line overrides its earlier value.
pub open spec fn tokens_to_map(toks: Seq<Seq<char>>) -> Map<Seq<char>, Seq<char>>
    decreases toks.len(),
{
    if toks.len() == 0 {
        Map::<Seq<char>, Seq<char>>::empty()
    } else {
        let m = tokens_to_map(toks.drop_last());
        match token_pair(toks.last()) {
            Some(kv) => m.insert(kv.0, kv.1),
            None => m,
        }
    }
}

/// The mapping encoded by one protocol header line.
pub open spec fn header_map_spec(line: Seq<char>) -> Map<Seq<char>, Seq<char>> {
    tokens_to_map(split_ws(line))
}

/// An insertion-ordered string-to-string mapping with unique keys, the
/// decoded form of a protocol header line.
pub struct HeaderMap {
    entries: Vec<(String, String)>,
}

/// The mapping held by an entry list, later entries overriding earlier.
pub open spec fn entries_map(s: Seq<(String, String)>) -> Map<Seq<char>, Seq<char>>
    decreases s.len(),
{
    if s.len() == 0 {
        Map::<Seq<char>, Seq<char>>::empty()
    } else {
        entries_map(s.drop_last()).insert(s.last().0@, s.last().1@)
    }
}

pub open spec fn unique_keys(s: Seq<(String, String)>) -> bool {
    forall|i: int, j: int| 0 <= i < j < s.len() ==> s[i].0@ != s[j].0@
}

/// The map of an entry list holds exactly the listed keys, unique or not.
pub proof fn lemma_entries_keys(s: Seq<(String, String)>)
    ensures
        forall|k: Seq<char>|
            entries_map(s).contains_key(k) <==> exists|i: int|
                0 <= i < s.len() && #[trigger] s[i].0@ == k,
    decreases s.len(),
{
    if s.len() > 0 {
        lemma_entries_keys(s.drop_last());
        assert forall|k: Seq<char>| entries_map(s).contains_key(k) implies exists|i: int|
            0 <= i < s.len() && #[trigger] s[i].0@ == k by {
            if k == s.last().0@ {
                assert(s[s.len() - 1].0@ == k);
            } else {
                assert(entries_map(s) == entries_map(s.drop_last()).insert(
                    s.last().0@,
                    s.last().1@,
                ));
                assert(entries_map(s.drop_last()).contains_key(k));
                let i = choose|i: int|
                    0 <= i < s.drop_last().len() && #[trigger] s.drop_last()[i].0@ == k;
                assert(s.drop_last()[i] == s[i]);
                assert(s[i].0@ == k);
            }
        }
        assert forall|k: Seq<char>|
            (exists|i: int| 0 <= i < s.len() && #[trigger] s[i].0@ == k) implies entries_map(
            s,
        ).contains_key(k) by {
            assert(entries_map(s) == entries_map(s.drop_last()).insert(s.last().0@, s.last().1@));
            let i = choose|i: int| 0 <= i < s.len() && #[trigger] s[i].0@ == k;
            if i < s.len() - 1 {
                assert(s.drop_last()[i] == s[i]);
                assert(s.drop_last()[i].0@ == k);
                assert(entries_map(s.drop_last()).contains_key(k));
            } else {
                assert(k == s.last().0@);
            }
        }
    }
}

/// With unique keys, the entry list and its map carry the same pairs.
pub proof fn lemma_entries_map(s: Seq<(String, String)>)
    requires
        unique_keys(s),
    ensures
        forall|k: Seq<char>|
            entries_map(s).contains_key(k) <==> exists|i: int|
                0 <= i < s.len() && #[trigger] s[i].0@ == k,
        forall|i: int|
            0 <= i < s.len() ==> entries_map(s).contains_key(#[trigger] s[i].0@)
                && entries_map(s)[s[i].0@] == s[i].1@,
    decreases s.len(),
{
    if s.len() > 0 {
        lemma_entries_map(s.drop_last());
        assert forall|k: Seq<char>| entries_map(s).contains_key(k) implies exists|i: int|
            0 <= i < s.len() && #[trigger] s[i].0@ == k by {
            if k == s.last().0@ {
                assert(s[s.len() - 1].0@ == k);
            } else {
                assert(entries_map(s) == entries_map(s.drop_last()).insert(
                    s.last().0@,
                    s.last().1@,
                ));
                assert(entries_map(s.drop_last()).contains_key(k));
                let i = choose|i: int|
                    0 <= i < s.drop_last().len() && #[trigger] s.drop_last()[i].0@ == k;
                assert(s.drop_last()[i] == s[i]);
                assert(s[i].0@ == k);
            }
        }
        assert forall|i: int| 0 <= i < s.len() implies entries_map(s).contains_key(
            #[trigger] s[i].0@,
        ) && entries_map(s)[s[i].0@] == s[i].1@ by {
            if i < s.len() - 1 {
                assert(s.drop_last()[i] == s[i]);
                assert(s[i].0@ != s.last().0@);
            }
        }
    }
}

impl HeaderMap {
    /// Key uniqueness: every key names at most one entry.
    pub closed spec fn wf(&self) -> bool {
        unique_keys(self.entries@)
    }

    /// The mapping view.
    pub closed spec fn view(&self) -> Map<Seq<char>, Seq<char>> {
        entries_map(self.entries@)
    }

    /// The entries in insertion order, as a ghost sequence of key/value
    /// character sequences.
    pub closed spec fn entries_view(&self) -> Seq<(Seq<char>, Seq<char>)> {
        self.entries@.map_values(|e: (String, String)| (e.0@, e.1@))
    }

    pub fn new() -> (r: HeaderMap)
        ensures
            r.wf(),
            r@ == Map::<Seq<char>, Seq<char>>::empty(),
            r.entries_view() == Seq::<(Seq<char>, Seq<char>)>::empty(),
    {
        let r = HeaderMap { entries: Vec::new() };
        proof {
            assert(r.entries_view() =~= Seq::<(Seq<char>, Seq<char>)>::empty());
        }
        r
    }

    /// Index of the entry holding `key`, scanning from the front.
    fn position_of(&self, key: &str) -> (r: Option<usize>)
        ensures
            match r {
                Some(i) => i < self.entries@.len() && self.entries@[i as int].0@ == key@,
                None => forall|i: int|
                    0 <= i < self.entries@.len() ==> #[trigger] self.entries@[i].0@ != key@,
            },
    {
        let n: usize = self.entries.len();
        let mut i: usize = 0;
        while i < n
            invariant
                n == self.entries@.len(),
                0 <= i <= n,
                forall|k: int| 0 <= k < i ==> #[trigger] self.entries@[k].0@ != key@,
            decreases n - i,
        {
            let e = &self.entries[i];
            if str_eq(e.0.as_str(), key) {
                return Some(i);
            }
            i = i + 1;
        }
        None
    }

    /// Inserts `value` under `key`, replacing any earlier entry with that
    /// key.
    pub fn upsert(&mut self, key: String, value: String)
        requires
            old(self).wf(),
        ensures
            final(self).wf(),
            final(self)@ == old(self)@.insert(key@, value@),
    {
        let pos = self.position_of(key.as_str());
        match pos {
            Some(i) => {
                let ghost before = self.entries@;
                self.entries.remove(i);
                proof {
                    lemma_remove_unique(before, i as int);
                }
                let ghost mid = self.entries@;
                self.entries.push((key, value));
                proof {
                    let e = self.entries@.last();
                    assert(self.entries@ =~= mid.push(e));
                    lemma_push_unique(mid, e);
                    lemma_map_insert_shuffle(before, i as int, e);
                }
            },
            None => {
                let ghost mid = self.entries@;
                self.entries.push((key, value));
                proof {
                    let e = self.entries@.last();
                    assert(self.entries@ =~= mid.push(e));
                    assert(self.entries@.drop_last() =~= mid);
                    lemma_push_unique(mid, e);
                }
            },
        }
    }

    /// The value stored under `key`, when one is.  A map that did not
    /// come out of this module's constructors may hold duplicate keys;
    /// only a well-formed map pins the returned value to the view.
    pub fn get(&self, key: &str) -> (r: Option<&String>)
        ensures
            r is Some <==> self@.contains_key(key@),
            self.wf() ==> match r {
                Some(v) => self@.contains_key(key@) && v@ == self@[key@],
                None => !self@.contains_key(key@),
            },
    {
        proof {
            lemma_entries_keys(self.entries@);
            if self.wf() {
                lemma_entries_map(self.entries@);
            }
        }
        let pos = self.position_of(key);
        match pos {
            Some(i) => {
                let e = &self.entries[i];
                Some(&e.1)
            },
            None => None,
        }
    }

    /// Whether `key` names an entry.
    pub fn contains_key(&self, key: &str) -> (r: bool)
        ensures
            r == self@.contains_key(key@),
    {
        match self.get(key) {
            Some(_) => true,
            None => false,
        }
    }

    /// Number of entries.
    pub fn len(&self) -> (r: usize)
        ensures
            r == self.entries_view().len(),
    {
        self.entries.len()
    }
}

/// Removing an entry from a unique-keyed list keeps the rest unique, and
/// drops exactly that key.
proof fn lemma_remove_unique(s: Seq<(String, String)>, i: int)
    requires
        unique_keys(s),
        0 <= i < s.len(),
    ensures
        unique_keys(s.remove(i)),
        forall|j: int|
            0 <= j < s.remove(i).len() ==> #[trigger] s.remove(i)[j].0@ != s[i].0@,
{
    let t = s.remove(i);
    assert forall|p: int, q: int| 0 <= p < q < t.len() implies t[p].0@ != t[q].0@ by {
        let sp: int = if p < i { p } else { p + 1 };
        let sq: int = if q < i { q } else { q + 1 };
        assert(t[p] == s[sp] && t[q] == s[sq]);
    }
    assert forall|j: int| 0 <= j < t.len() implies #[trigger] t[j].0@ != s[i].0@ by {
        let sj: int = if j < i { j } else { j + 1 };
        assert(t[j] == s[sj]);
    }
}

/// Appending an entry whose key is absent keeps the keys unique.
proof fn lemma_push_unique(s: Seq<(String, String)>, e: (String, String))
    requires
        unique_keys(s),
        forall|j: int| 0 <= j < s.len() ==> #[trigger] s[j].0@ != e.0@,
    ensures
        unique_keys(s.push(e)),
{
    let t = s.push(e);
    assert forall|p: int, q: int| 0 <= p < q < t.len() implies t[p].0@ != t[q].0@ by {
        if q < s.len() {
            assert(t[p] == s[p] && t[q] == s[q]);
        } else {
            assert(t[p] == s[p] && t[q] == e);
        }
    }
}

/// Dropping the entry that holds a key and pushing a fresh value for that
/// same key at the back is, as a mapping, one `insert`.
proof fn lemma_map_insert_shuffle(before: Seq<(String, String)>, i: int, e: (String, String))
    requires
        unique_keys(before),
        0 <= i < before.len(),
        before[i].0@ == e.0@,
    ensures
        entries_map(before.remove(i).push(e)) == entries_map(before).insert(e.0@, e.1@),
{
    let mid = before.remove(i);
    lemma_remove_unique(before, i);
    lemma_push_unique(mid, e);
    lemma_entries_map(before);
    lemma_entries_map(mid);
    lemma_entries_map(mid.push(e));
    let lhs = entries_map(mid.push(e));
    let rhs = entries_map(before).insert(e.0@, e.1@);
    assert forall|q: Seq<char>| lhs.contains_key(q) implies rhs.contains_key(q) && lhs[q]
        == rhs[q] by {
        let j = choose|j: int| 0 <= j < mid.push(e).len() && #[trigger] mid.push(e)[j].0@ == q;
        if j < mid.len() {
            assert(mid.push(e)[j] == mid[j]);
            let bj: int = if j < i { j } else { j + 1 };
            assert(mid[j] == before[bj]);
            assert(mid[j].0@ != e.0@);
            assert(lhs[q] == mid.push(e)[j].1@);
            assert(rhs[q] == before[bj].1@);
        } else {
            assert(mid.push(e)[j] == e);
        }
    }
    assert forall|q: Seq<char>| rhs.contains_key(q) implies lhs.contains_key(q) by {
        if q != e.0@ {
            let j = choose|j: int| 0 <= j < before.len() && #[trigger] before[j].0@ == q;
            assert(j != i);
            let mj: int = if j < i { j } else { j - 1 };
            assert(mid[mj] == before[j]);
            assert(mid.push(e)[mj] == mid[mj]);
        } else {
            assert(mid.push(e).last() == e);
        }
    }
    assert(lhs =~= rhs);
}

/// Splits `line` into its whitespace-separated tokens.
fn split_ws_tokens(line: &str) -> (r: Vec<String>)
    ensures
        r@.map_values(|t: String| t@) == split_ws(line@),
{
    let n: usize = line.unicode_len();
    let mut done: Vec<String> = Vec::new();
    let mut in_tok: bool = false;
    let mut start: usize = 0;
    let mut i: usize = 0;
    while i < n
        invariant
            n == line@.len(),
            0 <= i <= n,
            in_tok ==> start <= i <= n,
            ws_fold(line@.take(i as int)).0.len() == done@.len(),
            forall|k: int|
                0 <= k < done@.len() ==> #[trigger] done@[k]@ == ws_fold(line@.take(i as int)).0[k],
            in_tok ==> ws_fold(line@.take(i as int)).1 == line@.subrange(start as int, i as int)
                && i > start,
            !in_tok ==> ws_fold(line@.take(i as int)).1 == Seq::<char>::empty(),
        decreases n - i,
    {
        let c = line.get_char(i);
        proof {
            assert(line@.take(i as int + 1).drop_last() =~= line@.take(i as int));
        }
        if is_wsp_char(c) {
            if in_tok {
                let part = line.substring_char(start, i).to_owned();
                done.push(part);
                in_tok = false;
            }
        } else {
            if !in_tok {
                start = i;
                in_tok = true;
            }
            proof {
                assert(ws_fold(line@.take(i as int + 1)).1 =~= line@.subrange(
                    start as int,
                    i as int + 1,
                ));
            }
        }
        i = i + 1;
    }
    proof {
        assert(line@.take(n as int) =~= line@);
    }
    if in_tok {
        let part = line.substring_char(start, n).to_owned();
        done.push(part);
    }
    proof {
        let sw = split_ws(line@);
        assert forall|k: int| 0 <= k < done@.len() implies done@.map_values(|t: String| t@)[k]
            == sw[k] by {
            assert(done@.map_values(|t: String| t@)[k] == done@[k]@);
        }
        assert(done@.map_values(|t: String| t@) =~= sw);
    }
    done
}

/// Parses one supervisor header line: whitespace-separated `key:value`
/// tokens become the mapping; a token without a colon is ignored; a key
/// repeated later in the line wins.
pub fn get_headers(line: &str) -> (r: HeaderMap)
    ensures
        r.wf(),
        r@ == header_map_spec(line@),
{
    let toks = split_ws_tokens(line);
    let ghost sw = split_ws(line@);
    let mut m = HeaderMap::new();
    let n: usize = toks.len();
    let mut k: usize = 0;
    while k < n
        invariant
            n == toks@.len(),
            0 <= k <= n,
            toks@.map_values(|t: String| t@) == sw,
            sw == split_ws(line@),
            m.wf(),
            m@ == tokens_to_map(sw.take(k as int)),
        decreases n - k,
    {
        let t: &String = &toks[k];
        proof {
            assert(toks@.map_values(|t: String| t@)[k as int] == t@);
            assert(sw.take(k as int + 1).drop_last() =~= sw.take(k as int));
            assert(sw.take(k as int + 1).last() == t@);
        }
        let ts = t.as_str();
        match find_char(ts, ':') {
            Some(j) => {
                let tn: usize = ts.unicode_len();
                let key = ts.substring_char(0, j).to_owned();
                let value = ts.substring_char(j + 1, tn).to_owned();
                proof {
                    assert(key@ =~= t@.take(j as int));
                    assert(value@ =~= t@.skip(j as int + 1));
                }
                m.upsert(key, value);
            },
            None => {},
        }
        k = k + 1;
    }
    proof {
        assert(sw.take(n as int) =~= sw);
    }
    m
}

/// The header mapping of an event payload: the part of the payload before
/// its first newline (or all of it, when none occurs) read as a header
/// line.
pub open spec fn eventdata_headers(p: Seq<char>) -> Map<Seq<char>, Seq<char>> {
    match first_index_from(p, '\n', 0) {
        Some(j) => header_map_spec(p.take(j)),
        None => header_map_spec(p),
    }
}

/// The body of an event payload: everything after the first newline, empty
/// when none occurs.
pub open spec fn eventdata_body(p: Seq<char>) -> Seq<char> {
    match first_index_from(p, '\n', 0) {
        Some(j) => p.skip(j + 1),
        None => Seq::<char>::empty(),
    }
}

/// One rendered `key:value` token.
pub open spec fn pair_token(k: Seq<char>, v: Seq<char>) -> Seq<char> {
    k + seq![':'] + v
}

/// An entry that a header line can carry faithfully: no colon in the key,
/// no whitespace in key or value.
pub open spec fn entry_ok(e: (Seq<char>, Seq<char>)) -> bool {
    &&& forall|i: int| 0 <= i < e.0.len() ==> e.0[i] != ':' && !is_wsp(#[trigger] e.0[i])
    &&& forall|i: int| 0 <= i < e.1.len() ==> !is_wsp(#[trigger] e.1[i])
}

/// The header line that renders an entry list: `key:value` tokens joined
/// by single spaces.
pub open spec fn render_line(es: Seq<(Seq<char>, Seq<char>)>) -> Seq<char>
    decreases es.len(),
{
    if es.len() == 0 {
        Seq::<char>::empty()
    } else if es.len() == 1 {
        pair_token(es[0].0, es[0].1)
    } else {
        render_line(es.drop_last()) + seq![' '] + pair_token(es.last().0, es.last().1)
    }
}

/// The mapping carried by a ghost entry list, later entries overriding.
pub open spec fn pairs_map(es: Seq<(Seq<char>, Seq<char>)>) -> Map<Seq<char>, Seq<char>>
    decreases es.len(),
{
    if es.len() == 0 {
        Map::<Seq<char>, Seq<char>>::empty()
    } else {
        pairs_map(es.drop_last()).insert(es.last().0, es.last().1)
    }
}

/// Appending non-whitespace text only extends the token being read.
proof fn lemma_ws_fold_nonws(a: Seq<char>, t: Seq<char>)
    requires
        forall|i: int| 0 <= i < t.len() ==> !is_wsp(#[trigger] t[i]),
    ensures
        ws_fold(a + t) == (ws_fold(a).0, ws_fold(a).1 + t),
    decreases t.len(),
{
    if t.len() == 0 {
        assert(a + t =~= a);
        assert(ws_fold(a).1 + t =~= ws_fold(a).1);
    } else {
        assert forall|i: int| 0 <= i < t.drop_last().len() implies !is_wsp(
            #[trigger] t.drop_last()[i],
        ) by {
            assert(t.drop_last()[i] == t[i]);
        }
        lemma_ws_fold_nonws(a, t.drop_last());
        assert((a + t).drop_last() =~= a + t.drop_last());
        assert((a + t).last() == t.last());
        assert((ws_fold(a).1 + t.drop_last()).push(t.last()) =~= ws_fold(a).1 + t);
    }
}

/// A trailing space closes the token being read.
proof fn lemma_ws_fold_space(a: Seq<char>)
    ensures
        ws_fold(a + seq![' ']) == (split_ws(a), Seq::<char>::empty()),
{
    assert((a + seq![' ']).drop_last() =~= a);
    assert((a + seq![' ']).last() == ' ');
}

/// Appending a space and a non-whitespace token appends one token.
proof fn lemma_split_ws_append_token(a: Seq<char>, t: Seq<char>)
    requires
        t.len() > 0,
        forall|i: int| 0 <= i < t.len() ==> !is_wsp(#[trigger] t[i]),
    ensures
        split_ws(a + seq![' '] + t) == split_ws(a).push(t),
{
    lemma_ws_fold_space(a);
    lemma_ws_fold_nonws(a + seq![' '], t);
    assert(Seq::<char>::empty() + t =~= t);
}

/// A lone non-whitespace token is one token.
proof fn lemma_split_ws_single_token(t: Seq<char>)
    requires
        t.len() > 0,
        forall|i: int| 0 <= i < t.len() ==> !is_wsp(#[trigger] t[i]),
    ensures
        split_ws(t) == seq![t],
{
    lemma_ws_fold_nonws(Seq::<char>::empty(), t);
    assert(Seq::<char>::empty() + t =~= t);
    assert(ws_fold(t).0.push(t) =~= seq![t]);
}

/// A rendered token splits back into the key and value it came from.
proof fn lemma_token_pair_render(k: Seq<char>, v: Seq<char>)
    requires
        forall|i: int| 0 <= i < k.len() ==> #[trigger] k[i] != ':',
    ensures
        token_pair(pair_token(k, v)) == Some((k, v)),
{
    let s = pair_token(k, v);
    assert(s[k.len() as int] == ':');
    lemma_first_index(s, ':', 0);
    match first_index_from(s, ':', 0) {
        Some(j) => {
            if j < k.len() {
                assert(s[j] == k[j]);
            }
            if j > k.len() {
                assert(s[k.len() as int] == ':');
            }
            assert(j == k.len());
            assert(s.take(j) =~= k);
            assert(s.skip(j + 1) =~= v);
        },
        None => {
            assert(s[k.len() as int] == ':');
        },
    }
}

/// Decoding a rendered entry list recovers its mapping.
proof fn lemma_decode_render(es: Seq<(Seq<char>, Seq<char>)>)
    requires
        forall|i: int| 0 <= i < es.len() ==> entry_ok(#[trigger] es[i]),
    ensures
        header_map_spec(render_line(es)) == pairs_map(es),
    decreases es.len(),
{
    if es.len() == 0 {
        assert(ws_fold(Seq::<char>::empty()).0 =~= Seq::<Seq<char>>::empty());
        assert(tokens_to_map(split_ws(render_line(es))) =~= Map::<Seq<char>, Seq<char>>::empty());
    } else {
        let e = es.last();
        let t = pair_token(e.0, e.1);
        assert(entry_ok(e));
        assert(t.len() > 0);
        assert forall|i: int| 0 <= i < t.len() implies !is_wsp(#[trigger] t[i]) by {
            if i < e.0.len() {
                assert(t[i] == e.0[i]);
            } else if i == e.0.len() {
                assert(t[i] == ':');
            } else {
                assert(t[i] == e.1[i - e.0.len() - 1]);
            }
        }
        lemma_token_pair_render(e.0, e.1);
        if es.len() == 1 {
            assert(es[0] == es.last());
            lemma_split_ws_single_token(t);
            assert(split_ws(render_line(es)) == seq![t]);
            assert(seq![t].drop_last() =~= Seq::<Seq<char>>::empty());
            assert(tokens_to_map(Seq::<Seq<char>>::empty()) =~= Map::<Seq<char>, Seq<char>>::empty());
            assert(tokens_to_map(seq![t]) == tokens_to_map(seq![t].drop_last()).insert(e.0, e.1));
            assert(pairs_map(es.drop_last()) =~= Map::<Seq<char>, Seq<char>>::empty());
            assert(pairs_map(es) == pairs_map(es.drop_last()).insert(e.0, e.1));
        } else {
            assert forall|i: int| 0 <= i < es.drop_last().len() implies entry_ok(
                #[trigger] es.drop_last()[i],
            ) by {
                assert(es.drop_last()[i] == es[i]);
            }
            lemma_decode_render(es.drop_last());
            lemma_split_ws_append_token(render_line(es.drop_last()), t);
            let toks = split_ws(render_line(es.drop_last())).push(t);
            assert(split_ws(render_line(es)) == toks);
            assert(toks.drop_last() =~= split_ws(render_line(es.drop_last())));
            assert(toks.last() == t);
            assert(tokens_to_map(toks) == tokens_to_map(toks.drop_last()).insert(e.0, e.1));
            assert(tokens_to_map(toks.drop_last()) == header_map_spec(render_line(es.drop_last())));
            assert(pairs_map(es) == pairs_map(es.drop_last()).insert(e.0, e.1));
        }
    }
}

impl HeaderMap {
    /// Every entry can survive a render/decode round trip.
    pub open spec fn encodable(&self) -> bool {
        forall|i: int| 0 <= i < self.entries_view().len() ==> entry_ok(#[trigger] self.entries_view()[i])
    }

    /// Renders the mapping as one header line, entries in insertion order.
    pub fn encode_header_line(&self) -> (r: String)
        ensures
            r@ == render_line(self.entries_view()),
    {
        proof {
            reveal_strlit(" ");
            reveal_strlit(":");
        }
        let mut out = String::new();
        let n: usize = self.entries.len();
        let mut i: usize = 0;
        while i < n
            invariant
                n == self.entries@.len(),
                0 <= i <= n,
                " "@ =~= seq![' '] && ":"@ =~= seq![':'],
                out@ == render_line(self.entries_view().take(i as int)),
            decreases n - i,
        {
            let e = &self.entries[i];
            proof {
                let ev = self.entries_view();
                assert(ev[i as int] == (e.0@, e.1@));
                assert(ev.take(i as int + 1).drop_last() =~= ev.take(i as int));
                assert(ev.take(i as int + 1).last() == ev[i as int]);
            }
            if i > 0 {
                out.append(" ");
            }
            out.append(e.0.as_str());
            out.append(":");
            out.append(e.1.as_str());
            proof {
                let ev = self.entries_view();
                if i == 0 {
                    assert(out@ =~= pair_token(ev[0].0, ev[0].1));
                    assert(render_line(ev.take(1)) == pair_token(
                        ev.take(1)[0].0,
                        ev.take(1)[0].1,
                    ));
                    assert(ev.take(1)[0] == ev[0]);
                } else {
                    assert(out@ =~= render_line(ev.take(i as int)) + seq![' '] + pair_token(
                        ev[i as int].0,
                        ev[i as int].1,
                    ));
                }
            }
            i = i + 1;
        }
        proof {
            assert(self.entries_view().take(n as int) =~= self.entries_view());
        }
        out
    }
}

/// The mapping of an entry list agrees with the mapping of its ghost view.
proof fn lemma_entries_pairs_map(s: Seq<(String, String)>)
    ensures
        pairs_map(s.map_values(|e: (String, String)| (e.0@, e.1@))) == entries_map(s),
    decreases s.len(),
{
    let ev = s.map_values(|e: (String, String)| (e.0@, e.1@));
    if s.len() == 0 {
        assert(pairs_map(ev) =~= entries_map(s));
    } else {
        lemma_entries_pairs_map(s.drop_last());
        assert(ev.drop_last() =~= s.drop_last().map_values(|e: (String, String)| (e.0@, e.1@)));
        assert(ev.last() == (s.last().0@, s.last().1@));
    }
}

/// Header round trip: rendering a well-formed mapping as a line and
/// decoding that line yields the mapping back.
pub proof fn lemma_header_round_trip(h: HeaderMap)
    requires
        h.encodable(),
    ensures
        header_map_spec(render_line(h.entries_view())) == h@,
{
    lemma_decode_render(h.entries_view());
    lemma_entries_pairs_map(h.entries@);
}

/// Splits an event payload into its header mapping and its body text.
pub fn eventdata(payload: &str) -> (r: (HeaderMap, String))
    ensures
        r.0.wf(),
        r.0@ == eventdata_headers(payload@),
        r.1@ == eventdata_body(payload@),
{
    let n: usize = payload.unicode_len();
    match find_char(payload, '\n') {
        Some(j) => {
            let head = payload.substring_char(0, j);
            let body = payload.substring_char(j + 1, n).to_owned();
            proof {
                assert(head@ =~= payload@.take(j as int));
                assert(body@ =~= payload@.skip(j as int + 1));
            }
            (get_headers(head), body)
        },
        None => {
            let h = get_headers(payload);
            (h, String::new())
        },
    }
}

} // verus!
