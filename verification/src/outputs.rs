//! Where a test's configuration comes from and where its reports go.
use vstd::prelude::*;
use crate::config::{CliArgs, opt_text};
use crate::text::{
    has_prefix, has_suffix, replace_all, chars_of, ends_with, push_char, push_str,
};

verus! {

/// Where the configuration of a run comes from.
#[derive(Debug, PartialEq, Eq)]
pub enum ConfigSource {
    /// The configuration file given with `--config-file`.
    File(String),
    /// The command line arguments.
    Cli,
    /// The example configuration file next to the program, if it exists.
    DefaultFile(String),
}

/// Chooses where the configuration comes from: a configuration file given on
/// the command line first, then a URL given on the command line, then
/// `config_example.json`.
pub fn config_source(args: &CliArgs) -> (s: ConfigSource)
    ensures
        match args.config_file {
            Some(p) => s matches ConfigSource::File(q) && q@ == p@,
            None => if args.url is Some {
                s is Cli
            } else {
                s matches ConfigSource::DefaultFile(q) && q@ == "config_example.json"@
            },
        },
{
    match &args.config_file {
        Some(p) => ConfigSource::File(p.clone()),
        None => {
            if args.url.is_some() {
                ConfigSource::Cli
            } else {
                ConfigSource::DefaultFile(String::from_str("config_example.json"))
            }
        },
    }
}

/// The path of the JSON summary next to the text summary `summary_output`:
/// every `.txt` becomes `.json` when the name ends in `.txt`; otherwise
/// `.json` is appended.
pub open spec fn json_summary_path(summary_output: Seq<char>) -> Seq<char> {
    if has_suffix(summary_output, ".txt"@) {
        replace_all(summary_output, ".txt"@, ".json"@)
    } else {
        summary_output + ".json"@
    }
}

/// Whether `from` occurs in `s` at index `i`.
fn matches_at(s: &Vec<char>, i: usize, from: &Vec<char>) -> (b: bool)
    requires
        i <= s.len(),
    ensures
        b == has_prefix(s@.skip(i as int), from@),
{
    if from.len() > s.len() - i {
        return false;
    }
    let mut k: usize = 0;
    while k < from.len()
        invariant
            from.len() <= s.len() - i,
            i <= s.len(),
            0 <= k <= from.len(),
            forall|q: int| 0 <= q < k ==> s@[i + q] == from@[q],
        decreases from.len() - k,
    {
        if s[i + k] != from[k] {
            assert(s@.skip(i as int).take(from.len() as int)[k as int] != from@[k as int]);
            return false;
        }
        k = k + 1;
    }
    assert(s@.skip(i as int).take(from.len() as int) =~= from@);
    true
}

/// `s` with every occurrence of `from` replaced by `to`.
pub fn replace_text(s: &Vec<char>, from: &Vec<char>, to: &str) -> (r: String)
    requires
        from.len() > 0,
    ensures
        r@ == replace_all(s@, from@, to@),
{
    let mut r = String::new();
    let mut i: usize = 0;
    assert(s@.skip(0) =~= s@);
    while i < s.len()
        invariant
            0 <= i <= s.len(),
            from.len() > 0,
            r@ + replace_all(s@.skip(i as int), from@, to@) == replace_all(s@, from@, to@),
        decreases s.len() - i,
    {
        let ghost rest = s@.skip(i as int);
        if matches_at(s, i, from) {
            push_str(&mut r, to);
            assert(rest.skip(from.len() as int) =~= s@.skip(i + from.len()));
            assert(r@ + replace_all(s@.skip(i + from.len()), from@, to@) =~= replace_all(s@, from@, to@));
            i = i + from.len();
        } else {
            push_char(&mut r, s[i]);
            assert(rest.drop_first() =~= s@.skip(i + 1));
            assert(r@ + replace_all(s@.skip(i + 1), from@, to@) =~= replace_all(s@, from@, to@));
            i = i + 1;
        }
    }
    assert(r@ + replace_all(s@.skip(i as int), from@, to@) =~= r@);
    r
}

/// The path of the JSON summary.
pub fn summary_json_path(summary_output: &str) -> (p: String)
    ensures
        p@ == json_summary_path(summary_output@),
{
    let s = chars_of(summary_output);
    let txt = chars_of(".txt");
    proof {
        reveal_strlit(".txt");
    }
    if ends_with(&s, &txt) {
        replace_text(&s, &txt, ".json")
    } else {
        let mut p = String::from_str(summary_output);
        push_str(&mut p, ".json");
        p
    }
}

/// Replacing every `.txt` of a text that ends in `.txt` leaves it ending in
/// `.json`.
proof fn lemma_replace_txt_suffix(s: Seq<char>)
    requires
        has_suffix(s, ".txt"@),
    ensures
        has_suffix(replace_all(s, ".txt"@, ".json"@), ".json"@),
    decreases s.len(),
{
    reveal_strlit(".txt");
    reveal_strlit(".json");
    let from = ".txt"@;
    let to = ".json"@;
    let r = replace_all(s, from, to);
    if has_prefix(s, from) {
        let rest = s.skip(4);
        if rest.len() == 0 {
            assert(replace_all(rest, from, to) =~= rest);
            assert(r =~= to);
            assert(r.skip(r.len() - 5) =~= to);
        } else {
            // The text begins and ends with `.txt`; the two cannot overlap.
            assert(s.len() >= 8) by {
                let n = s.len() as int;
                assert(s.skip(n - 4)[0] == '.');
                assert(s.take(4)[1] == 't' && s.take(4)[2] == 'x' && s.take(4)[3] == 't');
                if n == 5 { assert(s[1] == '.'); }
                if n == 6 { assert(s[2] == '.'); }
                if n == 7 { assert(s[3] == '.'); }
            }
            assert(rest.skip(rest.len() - 4) =~= s.skip(s.len() - 4));
            lemma_replace_txt_suffix(rest);
            let t = replace_all(rest, from, to);
            assert(r == to + t);
            assert(r.skip(r.len() - 5) =~= t.skip(t.len() - 5));
        }
    } else {
        let rest = s.drop_first();
        assert(s.len() > 4) by {
            if s.len() == 4 {
                assert(s.take(4) =~= s.skip(0));
            }
        }
        assert(rest.skip(rest.len() - 4) =~= s.skip(s.len() - 4));
        lemma_replace_txt_suffix(rest);
        let t = replace_all(rest, from, to);
        assert(r == seq![s[0]] + t);
        assert(r.skip(r.len() - 5) =~= t.skip(t.len() - 5));
    }
}

/// The JSON summary path always ends in `.json`.
pub proof fn law_json_summary_path_suffix(summary_output: Seq<char>)
    ensures
        has_suffix(json_summary_path(summary_output), ".json"@),
{
    if has_suffix(summary_output, ".txt"@) {
        lemma_replace_txt_suffix(summary_output);
    } else {
        reveal_strlit(".json");
        let p = summary_output + ".json"@;
        assert(p.skip(p.len() - 5) =~= ".json"@);
    }
}

/// Replacing `.txt` by `.json` keeps the first character.
proof fn lemma_replace_txt_first(t: Seq<char>)
    requires
        t.len() > 0,
    ensures
        replace_all(t, ".txt"@, ".json"@).len() > 0,
        replace_all(t, ".txt"@, ".json"@)[0] == t[0],
{
    reveal_strlit(".txt");
    reveal_strlit(".json");
    if has_prefix(t, ".txt"@) {
        assert(t.take(4)[0] == t[0]);
    }
}

/// After every `.txt` is replaced by `.json`, no `.txt` is left.
proof fn lemma_replace_txt_none_left(t: Seq<char>)
    ensures
        forall|i: int| 0 <= i <= replace_all(t, ".txt"@, ".json"@).len() ==>
            !has_prefix(#[trigger] replace_all(t, ".txt"@, ".json"@).skip(i), ".txt"@),
    decreases t.len(),
{
    reveal_strlit(".txt");
    reveal_strlit(".json");
    let from = ".txt"@;
    let to = ".json"@;
    let r = replace_all(t, from, to);
    if t.len() > 0 {
        if has_prefix(t, from) {
            let rest = t.skip(4);
            lemma_replace_txt_none_left(rest);
            let rr = replace_all(rest, from, to);
            assert(r == to + rr);
            assert forall|i: int| 0 <= i <= r.len() implies !has_prefix(#[trigger] r.skip(i), from) by {
                if i >= 5 {
                    assert(r.skip(i) =~= rr.skip(i - 5));
                } else if r.skip(i).len() >= 4 {
                    assert(r.skip(i).take(4)[0] == r[i]);
                    assert(r[i] == to[i]);
                    if i < 4 {
                        assert(r.skip(i).take(4)[1] == r[i + 1]);
                        assert(r[i + 1] == to[i + 1]);
                    }
                }
            }
        } else {
            let rest = t.drop_first();
            lemma_replace_txt_none_left(rest);
            let rr = replace_all(rest, from, to);
            assert(r == seq![t[0]] + rr);
            assert forall|i: int| 0 <= i <= r.len() implies !has_prefix(#[trigger] r.skip(i), from) by {
                if i >= 1 {
                    assert(r.skip(i) =~= rr.skip(i - 1));
                } else {
                    assert(r.skip(0) =~= r);
                }
                if i == 0 && has_prefix(r, from) {
                    // r = t[0] r1 r2 r3 ... spells ".txt", so t starts with ".txt".
                    assert(r.take(4)[0] == r[0] && r.take(4)[1] == r[1] && r.take(4)[2] == r[2] && r.take(4)[3] == r[3]);
                    assert(t[0] == '.');
                    lemma_replace_txt_first(rest);
                    assert(rest[0] == 't');
                    assert(!has_prefix(rest, from)) by {
                        if has_prefix(rest, from) {
                            assert(rest.take(4)[0] == rest[0]);
                        }
                    }
                    let r2 = rest.drop_first();
                    assert(rr == seq![rest[0]] + replace_all(r2, from, to));
                    lemma_replace_txt_first(r2);
                    assert(r2[0] == 'x');
                    assert(!has_prefix(r2, from)) by {
                        if has_prefix(r2, from) {
                            assert(r2.take(4)[0] == r2[0]);
                        }
                    }
                    let r3 = r2.drop_first();
                    assert(replace_all(r2, from, to) == seq![r2[0]] + replace_all(r3, from, to));
                    lemma_replace_txt_first(r3);
                    assert(r3[0] == 't');
                    assert(t.take(4) =~= from);
                }
            }
        }
    }
}

/// When the text summary's name ends in `.txt`, the JSON summary's name
/// holds no `.txt` at all: every `.txt` has become `.json`.
pub proof fn law_json_summary_path_replaces_every_txt(summary_output: Seq<char>)
    requires
        has_suffix(summary_output, ".txt"@),
    ensures
        forall|i: int| 0 <= i <= json_summary_path(summary_output).len() ==>
            !has_prefix(#[trigger] json_summary_path(summary_output).skip(i), ".txt"@),
{
    lemma_replace_txt_none_left(summary_output);
}

} // verus!
