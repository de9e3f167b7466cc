//! Request bodies read from a text with one JSON document per line.
use vstd::prelude::*;
use vstd::utf8::{encode_utf8, decode_utf8, is_char_boundary};
use crate::json::{json_parse, parse_json};
use crate::text::{
    split_on, trim, decimal, join, string_views, chars_of, split_chars, trim_chars, string_of,
    push_str, push_chars, decimal_string, join_strings, lemma_split_nonempty,
};

verus! {

/// A line without the `\r` of a `\r\n` ending.
pub open spec fn strip_cr(l: Seq<char>) -> Seq<char> {
    if l.len() > 0 && l.last() == '\r' {
        l.drop_last()
    } else {
        l
    }
}

/// The lines of a text, as `str::lines` gives them: the text is cut at each
/// `\n`, a line that a `\n` ends loses a `\r` just before it, and an empty
/// piece after the last `\n` is no line.
pub open spec fn text_lines(s: Seq<char>) -> Seq<Seq<char>> {
    let pieces = split_on(s, '\n');
    let n = pieces.len();
    let count: nat = if pieces.last().len() == 0 { (n - 1) as nat } else { n };
    Seq::new(count, |i: int| if i < n - 1 { strip_cr(pieces[i]) } else { pieces[i] })
}

/// The start of a rejected line that its error shows: the first 60 bytes of
/// its UTF-8 encoding, or the whole line when it is not longer.
pub open spec fn preview(t: Seq<char>) -> Seq<char> {
    if encode_utf8(t).len() > 60 {
        decode_utf8(encode_utf8(t).take(60))
    } else {
        t
    }
}

/// Whether the preview of `t` can be cut: 60 bytes into a longer line must
/// be a character boundary.
pub open spec fn preview_fits(t: Seq<char>) -> bool {
    encode_utf8(t).len() > 60 ==> is_char_boundary(encode_utf8(t), 60)
}

/// The error line for line number `line_no`, whose trimmed text `t` failed
/// to parse with error `err`.
pub open spec fn line_error(line_no: nat, err: Seq<char>, t: Seq<char>) -> Seq<char> {
    "  Line "@ + decimal(line_no) + ": "@ + err + " → \""@ + preview(t) + "\""@
}

/// Reading the lines `ls` in order: the documents of the non-blank lines
/// that parse, and the error lines of those that do not.
pub open spec fn scan_lines(ls: Seq<Seq<char>>) -> (Seq<serde_json::Value>, Seq<Seq<char>>)
    decreases ls.len(),
{
    if ls.len() == 0 {
        (Seq::empty(), Seq::empty())
    } else {
        let prev = scan_lines(ls.drop_last());
        let t = trim(ls.last());
        if t.len() == 0 {
            prev
        } else {
            match json_parse(t) {
                Ok(v) => (prev.0.push(v), prev.1),
                Err(e) => (prev.0, prev.1.push(line_error(ls.len(), e, t))),
            }
        }
    }
}

/// Whether every line whose error would be reported can be previewed.
pub open spec fn previews_fit(ls: Seq<Seq<char>>) -> bool {
    forall|i: int|
        0 <= i < ls.len() && trim(ls[i]).len() > 0 && json_parse(trim(ls[i])) is Err
            ==> #[trigger] preview_fits(trim(ls[i]))
}

/// What reading the bodies of `content` (from the file `path`) gives.
pub open spec fn bodies_outcome(content: Seq<char>, path: Seq<char>) -> Result<Seq<serde_json::Value>, Seq<char>> {
    let scanned = scan_lines(text_lines(content));
    if scanned.1.len() > 0 {
        Err("found "@ + decimal(scanned.1.len()) + " invalid line from JSON  '"@ + path + "':\n"@
            + join(scanned.1, "\n"@))
    } else if scanned.0.len() == 0 {
        Err("File '"@ + path + "' doest not have valid JSON line (empty file?)"@)
    } else {
        Ok(scanned.0)
    }
}

/// The lines of a text.
pub fn lines_of(s: &Vec<char>) -> (ls: Vec<Vec<char>>)
    ensures
        ls.deep_view() == text_lines(s@),
{
    let pieces = split_chars(s, '\n');
    let ghost ps = pieces.deep_view();
    proof {
        lemma_split_nonempty(s@, '\n');
    }
    let n = pieces.len();
    let count = if pieces[n - 1].len() == 0 { n - 1 } else { n };
    assert(pieces@[n - 1].deep_view() == ps[n - 1]);
    assert(pieces@[n - 1]@ =~= ps[n - 1]);
    let mut ls: Vec<Vec<char>> = Vec::new();
    let mut i: usize = 0;
    while i < count
        invariant
            count <= n == pieces.len() == ps.len(),
            ps == pieces.deep_view(),
            count == text_lines(s@).len(),
            ps == split_on(s@, '\n'),
            0 <= i <= count,
            ls.deep_view() == text_lines(s@).take(i as int),
        decreases count - i,
    {
        let piece = &pieces[i];
        assert(piece.deep_view() == ps[i as int]);
        assert(piece@ =~= ps[i as int]);
        let mut line: Vec<char> = Vec::new();
        let mut k: usize = 0;
        let len = piece.len();
        let keep = if i + 1 < n && len > 0 && piece[len - 1] == '\r' { len - 1 } else { len };
        while k < keep
            invariant
                keep <= len == piece@.len(),
                0 <= k <= keep,
                line@ == piece@.take(k as int),
            decreases keep - k,
        {
            line.push(piece[k]);
            assert(piece@.take(k + 1) =~= piece@.take(k as int).push(piece@[k as int]));
            k = k + 1;
        }
        let ghost before = ls.deep_view();
        let ghost lv = line.deep_view();
        assert(lv =~= line@);
        assert(line@ =~= text_lines(s@)[i as int]);
        ls.push(line);
        assert(ls.deep_view() =~= before.push(lv));
        assert(text_lines(s@).take(i + 1) =~= text_lines(s@).take(i as int).push(text_lines(s@)[i as int]));
        i = i + 1;
    }
    assert(text_lines(s@).take(count as int) =~= text_lines(s@));
    ls
}

/// The error text of a line that does not parse.
fn error_line(line_no: usize, err: &String, trimmed: &String) -> (s: String)
    requires
        preview_fits(trimmed@),
    ensures
        s@ == line_error(line_no as nat, err@, trimmed@),
{
    let mut s = String::from_str("  Line ");
    let num = decimal_string(line_no as u64);
    push_str(&mut s, num.as_str());
    push_str(&mut s, ": ");
    push_str(&mut s, err.as_str());
    push_str(&mut s, " → \"");
    let t = trimmed.as_str();
    if t.as_bytes().len() > 60 {
        let (head, _) = t.split_at(60);
        proof {
            vstd::utf8::encode_utf8_decode_utf8(head@);
        }
        push_str(&mut s, head);
    } else {
        push_str(&mut s, t);
    }
    push_str(&mut s, "\"");
    s
}

/// Whether the error line of the trimmed line `t` can be written.
pub fn preview_fits_exec(t: &String) -> (b: bool)
    ensures
        b == preview_fits(t@),
{
    let s = t.as_str();
    s.as_bytes().len() <= 60 || s.is_char_boundary(60)
}

/// Reads one JSON document from each non-blank line of `content`, which came
/// from the file `path`.  Every line that does not parse is reported, with
/// its number and its start.
pub fn bodies_from_text(content: &str, path: &str) -> (r: Result<Vec<serde_json::Value>, String>)
    requires
        previews_fit(text_lines(content@)),
    ensures
        match bodies_outcome(content@, path@) {
            Ok(vs) => r matches Ok(v) && v@ == vs,
            Err(e) => r matches Err(msg) && msg@ == e,
        },
{
    match checked_bodies_from_text(content, path) {
        Some(r) => r,
        None => {
            proof {
                assert(false);
            }
            Err(String::new())
        },
    }
}

/// Reads the bodies of `content` as `bodies_from_text` does, or gives `None`
/// when a rejected line is longer than 60 bytes and its 60th byte falls
/// inside a character, so that its start cannot be shown.
pub fn checked_bodies_from_text(content: &str, path: &str) -> (r: Option<Result<Vec<serde_json::Value>, String>>)
    ensures
        r is None <==> !previews_fit(text_lines(content@)),
        r matches Some(res) ==> match bodies_outcome(content@, path@) {
            Ok(vs) => res matches Ok(v) && v@ == vs,
            Err(e) => res matches Err(msg) && msg@ == e,
        },
{
    let chars = chars_of(content);
    let lines = lines_of(&chars);
    let ghost ls = lines.deep_view();
    let mut bodies: Vec<serde_json::Value> = Vec::new();
    let mut errors: Vec<String> = Vec::new();
    let mut i: usize = 0;
    assert(ls.take(0) =~= Seq::<Seq<char>>::empty());
    while i < lines.len()
        invariant
            0 <= i <= lines.len(),
            ls == lines.deep_view(),
            ls == text_lines(content@),
            forall|k: int|
                0 <= k < i && trim(ls[k]).len() > 0 && json_parse(trim(ls[k])) is Err
                    ==> #[trigger] preview_fits(trim(ls[k])),
            scan_lines(ls.take(i as int)) == (bodies@, string_views(errors@)),
        decreases lines.len() - i,
    {
        assert(ls.take(i + 1).drop_last() =~= ls.take(i as int));
        assert(lines@[i as int].deep_view() == ls[i as int]);
        assert(lines@[i as int]@ =~= ls[i as int]);
        let trimmed_chars = trim_chars(&lines[i]);
        if trimmed_chars.len() > 0 {
            let trimmed = string_of(&trimmed_chars);
            match parse_json(trimmed.as_str()) {
                Ok(v) => {
                    bodies.push(v);
                },
                Err(e) => {
                    if !preview_fits_exec(&trimmed) {
                        assert(!preview_fits(trim(ls[i as int])));
                        return None;
                    }
                    let line = error_line(i + 1, &e, &trimmed);
                    let ghost before = errors@;
                    errors.push(line);
                    assert(string_views(errors@) =~= string_views(before).push(line@));
                },
            }
        }
        i = i + 1;
    }
    assert(ls.take(lines.len() as int) =~= ls);
    if errors.len() > 0 {
        let mut msg = String::from_str("found ");
        let num = decimal_string(errors.len() as u64);
        push_str(&mut msg, num.as_str());
        push_str(&mut msg, " invalid line from JSON  '");
        push_str(&mut msg, path);
        push_str(&mut msg, "':\n");
        let joined = join_strings(&errors, "\n");
        push_str(&mut msg, joined.as_str());
        return Some(Err(msg));
    }
    if bodies.len() == 0 {
        let mut msg = String::from_str("File '");
        push_str(&mut msg, path);
        push_str(&mut msg, "' doest not have valid JSON line (empty file?)");
        return Some(Err(msg));
    }
    Some(Ok(bodies))
}

/// How many of the lines `ls` are not blank.
pub open spec fn nonblank_count(ls: Seq<Seq<char>>) -> nat
    decreases ls.len(),
{
    if ls.len() == 0 {
        0
    } else {
        nonblank_count(ls.drop_last()) + if trim(ls.last()).len() > 0 { 1nat } else { 0nat }
    }
}

proof fn lemma_scan_counts(ls: Seq<Seq<char>>)
    ensures
        scan_lines(ls).0.len() + scan_lines(ls).1.len() == nonblank_count(ls),
    decreases ls.len(),
{
    if ls.len() > 0 {
        lemma_scan_counts(ls.drop_last());
    }
}

/// When the bodies are read, each non-blank line gives exactly one body.
pub proof fn law_one_body_per_line(content: Seq<char>, path: Seq<char>)
    ensures
        bodies_outcome(content, path) matches Ok(vs) ==> vs.len() == nonblank_count(text_lines(content)),
{
    lemma_scan_counts(text_lines(content));
}

/// The non-blank lines of `ls`, trimmed, in order.
pub open spec fn nonblank_trimmed(ls: Seq<Seq<char>>) -> Seq<Seq<char>> {
    ls.map_values(|l: Seq<char>| trim(l)).filter(|t: Seq<char>| t.len() > 0)
}

proof fn lemma_scan_in_order(ls: Seq<Seq<char>>)
    ensures
        scan_lines(ls).1.len() == 0 ==> {
            &&& scan_lines(ls).0.len() == nonblank_trimmed(ls).len()
            &&& forall|k: int| 0 <= k < scan_lines(ls).0.len() ==>
                json_parse(#[trigger] nonblank_trimmed(ls)[k]) == Ok::<serde_json::Value, Seq<char>>(scan_lines(ls).0[k])
        },
    decreases ls.len(),
{
    if ls.len() > 0 {
        let prev = ls.drop_last();
        lemma_scan_in_order(prev);
        let mapped = ls.map_values(|l: Seq<char>| trim(l));
        assert(mapped.drop_last() =~= prev.map_values(|l: Seq<char>| trim(l)));
        reveal_with_fuel(Seq::filter, 1);
        let t = trim(ls.last());
        assert(mapped.last() == t);
        let nb = nonblank_trimmed(ls);
        let nbp = nonblank_trimmed(prev);
        if t.len() > 0 {
            assert(nb == nbp.push(t));
        } else {
            assert(nb == nbp);
        }
        if scan_lines(ls).1.len() == 0 {
            assert(scan_lines(prev).1.len() == 0);
            if t.len() > 0 {
                let s = scan_lines(ls).0;
                assert forall|k: int| 0 <= k < s.len() implies
                    json_parse(#[trigger] nb[k]) == Ok::<serde_json::Value, Seq<char>>(s[k]) by {
                    if k < s.len() - 1 {
                        assert(nb[k] == nbp[k]);
                        assert(json_parse(nbp[k]) == Ok::<serde_json::Value, Seq<char>>(scan_lines(prev).0[k]));
                    }
                }
            }
        }
    }
}

/// When the bodies are read, they are the documents of the non-blank lines
/// in file order: body k is what the k-th non-blank line, trimmed, parses to.
/// And when every non-blank line parses and there is one, the reading
/// succeeds.
pub proof fn law_bodies_in_file_order(content: Seq<char>, path: Seq<char>)
    ensures
        bodies_outcome(content, path) matches Ok(vs) ==> {
            &&& vs.len() == nonblank_trimmed(text_lines(content)).len()
            &&& forall|k: int| 0 <= k < vs.len() ==>
                json_parse(#[trigger] nonblank_trimmed(text_lines(content))[k])
                    == Ok::<serde_json::Value, Seq<char>>(vs[k])
        },
        (forall|k: int| 0 <= k < nonblank_trimmed(text_lines(content)).len() ==>
            #[trigger] json_parse(nonblank_trimmed(text_lines(content))[k]) is Ok)
            && nonblank_trimmed(text_lines(content)).len() > 0 ==> bodies_outcome(content, path) is Ok,
{
    let ls = text_lines(content);
    lemma_scan_in_order(ls);
    lemma_scan_all_parse(ls);
    lemma_scan_counts(ls);
    lemma_nonblank_count(ls);
}

proof fn lemma_nonblank_count(ls: Seq<Seq<char>>)
    ensures
        nonblank_trimmed(ls).len() == nonblank_count(ls),
    decreases ls.len(),
{
    if ls.len() > 0 {
        let prev = ls.drop_last();
        lemma_nonblank_count(prev);
        let mapped = ls.map_values(|l: Seq<char>| trim(l));
        assert(mapped.drop_last() =~= prev.map_values(|l: Seq<char>| trim(l)));
        reveal_with_fuel(Seq::filter, 1);
        assert(mapped.last() == trim(ls.last()));
    }
}

proof fn lemma_scan_all_parse(ls: Seq<Seq<char>>)
    ensures
        (forall|k: int| 0 <= k < nonblank_trimmed(ls).len() ==>
            #[trigger] json_parse(nonblank_trimmed(ls)[k]) is Ok) ==> scan_lines(ls).1.len() == 0,
    decreases ls.len(),
{
    if ls.len() > 0 {
        let prev = ls.drop_last();
        lemma_scan_all_parse(prev);
        let mapped = ls.map_values(|l: Seq<char>| trim(l));
        assert(mapped.drop_last() =~= prev.map_values(|l: Seq<char>| trim(l)));
        reveal_with_fuel(Seq::filter, 1);
        let t = trim(ls.last());
        assert(mapped.last() == t);
        let nb = nonblank_trimmed(ls);
        let nbp = nonblank_trimmed(prev);
        if forall|k: int| 0 <= k < nb.len() ==> #[trigger] json_parse(nb[k]) is Ok {
            if t.len() > 0 {
                assert(nb == nbp.push(t));
                assert(json_parse(nb[nb.len() - 1]) is Ok);
                assert forall|k: int| 0 <= k < nbp.len() implies #[trigger] json_parse(nbp[k]) is Ok by {
                    assert(nb[k] == nbp[k]);
                }
            } else {
                assert(nb == nbp);
            }
        }
    }
}

/// The start of a rejected line that its error shows is the line itself
/// when its UTF-8 encoding has at most 60 bytes, and otherwise the leading
/// characters of the line whose encoding is exactly its first 60 bytes.
pub proof fn law_preview_is_first_60_bytes(t: Seq<char>)
    requires
        preview_fits(t),
    ensures
        t.take(preview(t).len() as int) == preview(t),
        encode_utf8(t).len() <= 60 ==> preview(t) == t,
        encode_utf8(t).len() > 60 ==> encode_utf8(preview(t)) == encode_utf8(t).take(60),
{
    let b = encode_utf8(t);
    vstd::utf8::encode_utf8_valid_utf8(t);
    vstd::utf8::encode_utf8_decode_utf8(t);
    if b.len() > 60 {
        assert(b.take(60) =~= b.subrange(0, 60));
        vstd::utf8::valid_utf8_split(b, 60);
        vstd::utf8::decode_utf8_split(b, 60);
        vstd::utf8::decode_utf8_encode_utf8(b.subrange(0, 60));
        let p = preview(t);
        assert(t == p + decode_utf8(b.subrange(60, b.len() as int)));
        assert(t.take(p.len() as int) =~= p);
    } else {
        assert(t.take(t.len() as int) =~= t);
    }
}

} // verus!
