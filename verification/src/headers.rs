//! Request headers: a map from header name to value, and the reading of the
//! `Key1:Val1,Key2:Val2` form that the command line takes.
use vstd::prelude::*;
use crate::text::{
    find_char, split_on, trim, chars_of, split_chars, trim_chars, find_in, string_of,
    string_of_range, push_chars, lemma_split_nonempty, lemma_trim_idempotent,
    is_white_space, lemma_split_without_sep, lemma_find_after_prefix, lemma_trim_of_trimmed,
};

verus! {

/// The map that a list of name/value pairs gives when they are inserted in
/// order (a later pair replaces an earlier one with the same name).
pub open spec fn pairs_map(s: Seq<(String, String)>) -> Map<Seq<char>, Seq<char>>
    decreases s.len(),
{
    if s.len() == 0 {
        Map::empty()
    } else {
        pairs_map(s.drop_last()).insert(s.last().0@, s.last().1@)
    }
}

/// No two pairs share a name.
pub open spec fn distinct_names(s: Seq<(String, String)>) -> bool {
    forall|i: int, j: int| 0 <= i < j < s.len() ==> s[i].0@ != s[j].0@
}

/// Request headers: each name maps to one value.
pub struct Headers {
    entries: Vec<(String, String)>,
}

impl View for Headers {
    type V = Map<Seq<char>, Seq<char>>;

    closed spec fn view(&self) -> Map<Seq<char>, Seq<char>> {
        pairs_map(self.entries@)
    }
}

/// A pair list with distinct names maps each of its names to the value
/// beside it, and nothing else.
pub proof fn lemma_pairs_map_lookup(s: Seq<(String, String)>)
    requires
        distinct_names(s),
    ensures
        forall|i: int| 0 <= i < s.len() ==> #[trigger] pairs_map(s).contains_key(s[i].0@)
            && pairs_map(s)[s[i].0@] == s[i].1@,
        forall|k: Seq<char>| #[trigger] pairs_map(s).contains_key(k) ==> exists|i: int|
            0 <= i < s.len() && s[i].0@ == k,
    decreases s.len(),
{
    if s.len() > 0 {
        let t = s.drop_last();
        lemma_pairs_map_lookup(t);
        assert forall|i: int| 0 <= i < s.len() implies #[trigger] pairs_map(s).contains_key(s[i].0@)
            && pairs_map(s)[s[i].0@] == s[i].1@ by {
            if i < s.len() - 1 {
                assert(t[i] == s[i]);
                assert(pairs_map(t).contains_key(t[i].0@));
                assert(s[i].0@ != s[s.len() - 1].0@);
            }
        }
        assert forall|k: Seq<char>| #[trigger] pairs_map(s).contains_key(k) implies exists|i: int|
            0 <= i < s.len() && s[i].0@ == k by {
            if k != s.last().0@ {
                assert(pairs_map(t).contains_key(k));
                let i = choose|i: int| 0 <= i < t.len() && t[i].0@ == k;
                assert(s[i].0@ == k);
            } else {
                assert(s[s.len() - 1].0@ == k);
            }
        }
    }
}

/// Replacing the value of a pair whose name is `k` updates the map at `k`.
pub proof fn lemma_pairs_map_update(s: Seq<(String, String)>, i: int, p: (String, String))
    requires
        distinct_names(s),
        0 <= i < s.len(),
        s[i].0@ == p.0@,
    ensures
        pairs_map(s.update(i, p)) == pairs_map(s).insert(p.0@, p.1@),
    decreases s.len(),
{
    let u = s.update(i, p);
    if i == s.len() - 1 {
        assert(u.drop_last() =~= s.drop_last());
        assert(pairs_map(u) =~= pairs_map(s).insert(p.0@, p.1@));
    } else {
        assert(u.drop_last() =~= s.drop_last().update(i, p));
        lemma_pairs_map_update(s.drop_last(), i, p);
        assert(s.last().0@ != p.0@);
        assert(pairs_map(u) =~= pairs_map(s).insert(p.0@, p.1@));
    }
}

impl Headers {
    #[verifier::type_invariant]
    spec fn names_distinct(self) -> bool {
        distinct_names(self.entries@)
    }

    /// No headers.
    pub fn new() -> (h: Headers)
        ensures
            h@ == Map::<Seq<char>, Seq<char>>::empty(),
    {
        Headers { entries: Vec::new() }
    }

    /// The number of headers.
    pub fn len(&self) -> (n: usize)
        ensures
            n == self@.len(),
    {
        proof {
            use_type_invariant(self);
            lemma_pairs_map_lookup(self.entries@);
            lemma_pairs_map_len(self.entries@);
        }
        self.entries.len()
    }

    /// The name/value pairs, each name once.
    pub fn entries(&self) -> (r: &Vec<(String, String)>)
        ensures
            pairs_map(r@) == self@,
            distinct_names(r@),
    {
        proof {
            use_type_invariant(self);
        }
        &self.entries
    }

    /// The value of header `name`, if there is one.
    pub fn get(&self, name: &String) -> (r: Option<&String>)
        ensures
            match r {
                Some(v) => self@.contains_key(name@) && self@[name@] == v@,
                None => !self@.contains_key(name@),
            },
    {
        proof {
            use_type_invariant(self);
            lemma_pairs_map_lookup(self.entries@);
        }
        let mut i: usize = 0;
        while i < self.entries.len()
            invariant
                0 <= i <= self.entries@.len(),
                forall|k: int| 0 <= k < i ==> self.entries@[k].0@ != name@,
            decreases self.entries@.len() - i,
        {
            if self.entries[i].0 == *name {
                proof {
                    use_type_invariant(self);
                    lemma_pairs_map_lookup(self.entries@);
                    assert(pairs_map(self.entries@).contains_key(self.entries@[i as int].0@));
                }
                return Some(&self.entries[i].1);
            }
            i = i + 1;
        }
        None
    }

    /// Sets header `name` to `value`, replacing any value it had.
    pub fn insert(&mut self, name: String, value: String)
        ensures
            final(self)@ == old(self)@.insert(name@, value@),
    {
        proof {
            use_type_invariant(&*self);
        }
        let mut entries: Vec<(String, String)> = Vec::new();
        std::mem::swap(&mut entries, &mut self.entries);
        let ghost before = entries@;
        assert(pairs_map(before) == old(self)@);
        let mut i: usize = 0;
        while i < entries.len()
            invariant
                0 <= i <= entries@.len(),
                entries@ == before,
                pairs_map(before) == old(self)@,
                distinct_names(before),
                forall|k: int| 0 <= k < i ==> entries@[k].0@ != name@,
            decreases entries@.len() - i,
        {
            if entries[i].0 == name {
                let ghost pair = (name, value);
                proof {
                    lemma_pairs_map_update(before, i as int, pair);
                }
                entries.set(i, (name, value));
                assert(entries@ == before.update(i as int, pair));
                assert(distinct_names(entries@));
                self.entries = entries;
                assert(self@ == pairs_map(before.update(i as int, pair)));
                assert(pair.0@ == name@ && pair.1@ == value@);
                assert(self@ == old(self)@.insert(pair.0@, pair.1@));
                return;
            }
            i = i + 1;
        }
        entries.push((name, value));
        assert(entries@.drop_last() =~= before);
        proof {
            lemma_pairs_map_lookup(before);
            assert forall|a: int, b: int| 0 <= a < b < entries@.len() implies entries@[a].0@
                != entries@[b].0@ by {
                if b == entries@.len() - 1 {
                    assert(entries@[a] == before[a]);
                }
            }
        }
        self.entries = entries;
    }
}

/// A pair list with distinct names has as many entries as its map.
pub proof fn lemma_pairs_map_len(s: Seq<(String, String)>)
    requires
        distinct_names(s),
    ensures
        pairs_map(s).dom().finite(),
        pairs_map(s).len() == s.len(),
    decreases s.len(),
{
    if s.len() > 0 {
        let t = s.drop_last();
        lemma_pairs_map_len(t);
        lemma_pairs_map_lookup(t);
        assert(!pairs_map(t).contains_key(s.last().0@)) by {
            if pairs_map(t).contains_key(s.last().0@) {
                let i = choose|i: int| 0 <= i < t.len() && t[i].0@ == s.last().0@;
                assert(s[i].0@ == s[s.len() - 1].0@);
            }
        }
    }
}

/// The error for a header piece that has no `:`.
pub open spec fn header_error(piece: Seq<char>) -> Seq<char> {
    "Format header is wrong: '"@ + piece + "'. use :  'Key:Value'"@
}

/// What reading the comma-separated pieces `ps` gives: each non-blank piece,
/// trimmed, must be `name:value`; the name and the value are trimmed and a
/// later piece replaces an earlier one with the same name.  The first piece
/// without `:` is the error.
pub open spec fn parse_header_pieces(ps: Seq<Seq<char>>) -> Result<Map<Seq<char>, Seq<char>>, Seq<char>>
    decreases ps.len(),
{
    if ps.len() == 0 {
        Ok(Map::empty())
    } else {
        match parse_header_pieces(ps.drop_last()) {
            Err(e) => Err(e),
            Ok(m) => {
                let p = trim(ps.last());
                if p.len() == 0 {
                    Ok(m)
                } else {
                    match find_char(p, ':') {
                        None => Err(header_error(p)),
                        Some(i) => Ok(m.insert(trim(p.take(i as int)), trim(p.skip(i + 1 as int)))),
                    }
                }
            },
        }
    }
}

/// What reading the `Key1:Val1,Key2:Val2` text gives; no text gives no headers.
pub open spec fn parse_header_text(text: Option<Seq<char>>) -> Result<Map<Seq<char>, Seq<char>>, Seq<char>> {
    match text {
        None => Ok(Map::empty()),
        Some(t) => parse_header_pieces(split_on(t, ',')),
    }
}

/// Reads headers written as `Key1:Val1,Key2:Val2`.
pub fn parse_headers(header_str: Option<&str>) -> (r: Result<Headers, String>)
    ensures
        match parse_header_text(opt_view(header_str)) {
            Ok(m) => r matches Ok(h) && h@ == m,
            Err(e) => r matches Err(msg) && msg@ == e,
        },
{
    let mut map = Headers::new();
    match header_str {
        None => Ok(map),
        Some(s) => {
            let chars = chars_of(s);
            let pieces = split_chars(&chars, ',');
            let ghost ps = pieces.deep_view();
            let mut i: usize = 0;
            assert(ps.take(0) =~= Seq::<Seq<char>>::empty());
            while i < pieces.len()
                invariant
                    0 <= i <= pieces.len(),
                    ps == pieces.deep_view(),
                    ps == split_on(s@, ','),
                    opt_view(header_str) == Some(s@),
                    parse_header_pieces(ps.take(i as int)) == Ok::<Map<Seq<char>, Seq<char>>, Seq<char>>(map@),
                decreases pieces.len() - i,
            {
                assert(ps.take(i + 1).drop_last() =~= ps.take(i as int));
                assert(pieces@[i as int].deep_view() == ps[i as int]);
                assert(pieces@[i as int]@ =~= ps[i as int]);
                let pair = trim_chars(&pieces[i]);
                if pair.len() > 0 {
                    match find_in(&pair, ':') {
                        None => {
                            let mut msg = String::from_str("Format header is wrong: '");
                            push_chars(&mut msg, &pair);
                            let tail = String::from_str("'. use :  'Key:Value'");
                            crate::text::push_str(&mut msg, tail.as_str());
                            assert(parse_header_pieces(ps.take(i + 1)) == Err::<Map<Seq<char>, Seq<char>>, Seq<char>>(msg@));
                            proof {
                                lemma_header_error_sticks(ps, (i + 1) as int);
                            }
                            assert(ps.take(ps.len() as int) =~= ps);
                            assert(parse_header_pieces(ps) == Err::<Map<Seq<char>, Seq<char>>, Seq<char>>(msg@));
                            assert(opt_view(header_str) == Some(s@));
                            return Err(msg);
                        },
                        Some(k) => {
                            let name_raw = string_of_range(&pair, 0, k);
                            let value_raw = string_of_range(&pair, k + 1, pair.len());
                            let name_chars = chars_of(name_raw.as_str());
                            let value_chars = chars_of(value_raw.as_str());
                            let name = string_of(&trim_chars(&name_chars));
                            let value = string_of(&trim_chars(&value_chars));
                            assert(pair@.subrange(0, k as int) =~= pair@.take(k as int));
                            assert(pair@.subrange(k + 1, pair@.len() as int) =~= pair@.skip(k + 1));
                            map.insert(name, value);
                        },
                    }
                }
                i = i + 1;
            }
            assert(ps.take(ps.len() as int) =~= ps);
            Ok(map)
        },
    }
}

/// The view of an optional string slice.
pub open spec fn opt_view(s: Option<&str>) -> Option<Seq<char>> {
    match s {
        Some(t) => Some(t@),
        None => None,
    }
}

/// Once a prefix of the pieces is in error, every longer prefix gives the
/// same error.
pub proof fn lemma_header_error_sticks(ps: Seq<Seq<char>>, n: int)
    requires
        0 <= n <= ps.len(),
        parse_header_pieces(ps.take(n)) is Err,
    ensures
        parse_header_pieces(ps.take(ps.len() as int)) == parse_header_pieces(ps.take(n)),
    decreases ps.len() - n,
{
    if n < ps.len() {
        assert(ps.take(n + 1).drop_last() =~= ps.take(n));
        lemma_header_error_sticks(ps, n + 1);
    }
}

/// Whether every name and value of `m` is its own trim.
pub open spec fn all_trimmed(m: Map<Seq<char>, Seq<char>>) -> bool {
    forall|k: Seq<char>| #[trigger] m.contains_key(k) ==> trim(k) == k && trim(m[k]) == m[k]
}

proof fn lemma_pieces_trimmed(ps: Seq<Seq<char>>)
    ensures
        parse_header_pieces(ps) matches Ok(m) ==> all_trimmed(m),
    decreases ps.len(),
{
    if ps.len() > 0 {
        lemma_pieces_trimmed(ps.drop_last());
        let p = trim(ps.last());
        if let Ok(m) = parse_header_pieces(ps.drop_last()) {
            if p.len() > 0 {
                if let Some(i) = find_char(p, ':') {
                    lemma_trim_idempotent(p.take(i as int));
                    lemma_trim_idempotent(p.skip(i + 1 as int));
                }
            }
        }
    }
}

/// Header names and values are stored without surrounding white space.
pub proof fn law_headers_trimmed(text: Option<Seq<char>>)
    ensures
        parse_header_text(text) matches Ok(m) ==> all_trimmed(m),
{
    if let Some(t) = text {
        lemma_pieces_trimmed(split_on(t, ','));
    }
}

/// Reading two header lists one after the other: the first error if there
/// is one, else the first list's headers with the second's replacing any of
/// the same name.
pub open spec fn then_headers(
    first: Result<Map<Seq<char>, Seq<char>>, Seq<char>>,
    second: Result<Map<Seq<char>, Seq<char>>, Seq<char>>,
) -> Result<Map<Seq<char>, Seq<char>>, Seq<char>> {
    match first {
        Err(e) => Err(e),
        Ok(m1) => match second {
            Err(e) => Err(e),
            Ok(m2) => Ok(m1.union_prefer_right(m2)),
        },
    }
}

proof fn lemma_split_concat(a: Seq<char>, b: Seq<char>, sep: char)
    ensures
        split_on(a + seq![sep] + b, sep) == split_on(a, sep) + split_on(b, sep),
    decreases b.len(),
{
    lemma_split_nonempty(a, sep);
    let s = a + seq![sep] + b;
    if b.len() == 0 {
        assert(s.drop_last() =~= a);
        assert(split_on(s, sep) =~= split_on(a, sep) + split_on(b, sep));
    } else {
        let b1 = b.drop_last();
        lemma_split_concat(a, b1, sep);
        lemma_split_nonempty(b1, sep);
        assert(s.drop_last() =~= a + seq![sep] + b1);
        let pa = split_on(a, sep);
        let pb = split_on(b1, sep);
        if b.last() == sep {
            assert(split_on(s, sep) =~= pa + split_on(b, sep));
        } else {
            assert((pa + pb).last() == pb.last());
            assert(split_on(s, sep) =~= pa + split_on(b, sep));
        }
    }
}

proof fn lemma_pieces_concat(ps1: Seq<Seq<char>>, ps2: Seq<Seq<char>>)
    ensures
        parse_header_pieces(ps1 + ps2) == then_headers(parse_header_pieces(ps1), parse_header_pieces(ps2)),
    decreases ps2.len(),
{
    if ps2.len() == 0 {
        assert(ps1 + ps2 =~= ps1);
        if let Ok(m1) = parse_header_pieces(ps1) {
            assert(m1.union_prefer_right(Map::empty()) =~= m1);
        }
    } else {
        let q = ps2.drop_last();
        lemma_pieces_concat(ps1, q);
        assert((ps1 + ps2).drop_last() =~= ps1 + q);
        assert((ps1 + ps2).last() == ps2.last());
        if let Ok(m1) = parse_header_pieces(ps1) {
            if let Ok(m2) = parse_header_pieces(q) {
                let p = trim(ps2.last());
                if p.len() > 0 {
                    if let Some(i) = find_char(p, ':') {
                        let k = trim(p.take(i as int));
                        let v = trim(p.skip(i + 1 as int));
                        assert(m1.union_prefer_right(m2).insert(k, v) =~= m1.union_prefer_right(m2.insert(k, v)));
                    }
                }
            }
        }
    }
}

/// Headers written as `A,B` are those of `A` with those of `B` added, a
/// header of `B` replacing one of `A` with the same name; an error in `A`
/// comes first.
pub proof fn law_headers_later_text_wins(a: Seq<char>, b: Seq<char>)
    ensures
        parse_header_text(Some(a + seq![','] + b))
            == then_headers(parse_header_text(Some(a)), parse_header_text(Some(b))),
{
    lemma_split_concat(a, b, ',');
    lemma_pieces_concat(split_on(a, ','), split_on(b, ','));
}

/// A single header `name:value`, whose name has no `:` and which has no
/// `,`, and whose name and value have no white space at their ends, gives
/// exactly that header.
pub proof fn law_single_header(name: Seq<char>, value: Seq<char>)
    requires
        name.len() > 0,
        value.len() > 0,
        !is_white_space(name[0]) && !is_white_space(name.last()),
        !is_white_space(value[0]) && !is_white_space(value.last()),
        forall|k: int| 0 <= k < name.len() ==> name[k] != ':' && name[k] != ',',
        forall|k: int| 0 <= k < value.len() ==> value[k] != ',',
    ensures
        parse_header_text(Some(name + seq![':'] + value))
            == Ok::<Map<Seq<char>, Seq<char>>, Seq<char>>(Map::empty().insert(name, value)),
{
    let s = name + seq![':'] + value;
    assert forall|k: int| 0 <= k < s.len() implies s[k] != ',' by {
        if k < name.len() {
            assert(s[k] == name[k]);
        } else if k > name.len() {
            assert(s[k] == value[k - name.len() - 1]);
        }
    }
    lemma_split_without_sep(s, ',');
    let ps = split_on(s, ',');
    assert(ps.drop_last() =~= Seq::<Seq<char>>::empty());
    assert(s[0] == name[0]);
    assert(s.last() == value.last());
    lemma_trim_of_trimmed(s);
    lemma_trim_of_trimmed(name);
    lemma_trim_of_trimmed(value);
    lemma_find_after_prefix(name, ':', value);
    assert(s.take(name.len() as int) =~= name);
    assert(s.skip(name.len() + 1 as int) =~= value);
    assert(ps.last() == s);
    assert(parse_header_pieces(ps.drop_last()) == Ok::<Map<Seq<char>, Seq<char>>, Seq<char>>(Map::empty()));
    assert(trim(s) == s);
    assert(find_char(trim(s), ':') == Some(name.len()));
}

} // verus!
