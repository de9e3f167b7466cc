//! The HTTP methods that a test can use, their names, and how a name given
//! on the command line is read.
use vstd::prelude::*;
use crate::text::push_str;

verus! {

/// An HTTP method that the tool can send.
#[derive(Debug, Clone, Copy, PartialEq, Eq, Structural)]
pub enum HttpMethod {
    GET,
    POST,
    PUT,
    PATCH,
    DELETE,
}

/// What `str::to_uppercase` gives for a text: the full Unicode uppercase
/// mapping, which this crate does not spell out.
pub uninterp spec fn unicode_uppercase(s: Seq<char>) -> Seq<char>;

/// Whether every character of `s` is ASCII.
pub open spec fn is_ascii_text(s: Seq<char>) -> bool {
    forall|i: int| 0 <= i < s.len() ==> (s[i] as u32) < 128
}

/// The ASCII uppercase of one character: `a`..`z` become `A`..`Z`, all
/// others stay.
pub open spec fn ascii_upper_char(c: char) -> char {
    if 'a' <= c && c <= 'z' {
        ((c as u32) - 32) as char
    } else {
        c
    }
}

/// The ASCII uppercase of a text.
pub open spec fn ascii_upper(s: Seq<char>) -> Seq<char> {
    s.map_values(|c: char| ascii_upper_char(c))
}

/// Upper-cases a text.
///
/// Trusted: `str::to_uppercase`.  Its result is named `unicode_uppercase`;
/// beyond that, on ASCII text it maps `a`..`z` to `A`..`Z` and keeps every
/// other character, as the Unicode mapping does there.  What it gives for
/// other characters is left unsaid.
#[verifier::external_body]
fn to_uppercase(s: &str) -> (r: String)
    ensures
        r@ == unicode_uppercase(s@),
        is_ascii_text(s@) ==> r@ == ascii_upper(s@),
{
    s.to_uppercase()
}

/// The name of a method, as the tool prints it.
pub open spec fn method_name(m: HttpMethod) -> Seq<char> {
    match m {
        HttpMethod::GET => "GET"@,
        HttpMethod::POST => "POST"@,
        HttpMethod::PUT => "PUT"@,
        HttpMethod::PATCH => "PATCH"@,
        HttpMethod::DELETE => "DELETE"@,
    }
}

/// The method whose name is exactly `name`, if any.
pub open spec fn method_named(name: Seq<char>) -> Option<HttpMethod> {
    if name == "GET"@ {
        Some(HttpMethod::GET)
    } else if name == "POST"@ {
        Some(HttpMethod::POST)
    } else if name == "PUT"@ {
        Some(HttpMethod::PUT)
    } else if name == "PATCH"@ {
        Some(HttpMethod::PATCH)
    } else if name == "DELETE"@ {
        Some(HttpMethod::DELETE)
    } else {
        None
    }
}

/// The uppercase of `s`: the ASCII mapping on ASCII text, the Unicode
/// mapping of `str::to_uppercase` otherwise.
pub open spec fn uppercase(s: Seq<char>) -> Seq<char> {
    if is_ascii_text(s) {
        ascii_upper(s)
    } else {
        unicode_uppercase(s)
    }
}

/// What reading `s` as a method gives: the method whose name is the
/// uppercase of `s`, or the error text.
pub open spec fn parse_method(s: Seq<char>) -> Result<HttpMethod, Seq<char>> {
    match method_named(uppercase(s)) {
        Some(m) => Ok(m),
        None => Err("Method Not Found: "@ + s),
    }
}

impl HttpMethod {
    /// The name of the method (`GET`, `POST`, ...).
    pub fn to_string(&self) -> (s: String)
        ensures
            s@ == method_name(*self),
    {
        match self {
            HttpMethod::GET => String::from_str("GET"),
            HttpMethod::POST => String::from_str("POST"),
            HttpMethod::PUT => String::from_str("PUT"),
            HttpMethod::PATCH => String::from_str("PATCH"),
            HttpMethod::DELETE => String::from_str("DELETE"),
        }
    }

    /// Reads a method name, in any letter case.
    pub fn from_str(s: &str) -> (r: Result<HttpMethod, String>)
        ensures
            match parse_method(s@) {
                Ok(m) => r == Ok::<HttpMethod, String>(m),
                Err(e) => r matches Err(msg) && msg@ == e,
            },
    {
        let upper = to_uppercase(s);
        if upper == String::from_str("GET") {
            Ok(HttpMethod::GET)
        } else if upper == String::from_str("POST") {
            Ok(HttpMethod::POST)
        } else if upper == String::from_str("PUT") {
            Ok(HttpMethod::PUT)
        } else if upper == String::from_str("PATCH") {
            Ok(HttpMethod::PATCH)
        } else if upper == String::from_str("DELETE") {
            Ok(HttpMethod::DELETE)
        } else {
            let mut msg = String::from_str("Method Not Found: ");
            push_str(&mut msg, s);
            Err(msg)
        }
    }
}

/// Printing a method and reading the printed name back gives the same method.
pub proof fn lemma_method_name_roundtrip(m: HttpMethod)
    ensures
        method_named(method_name(m)) == Some(m),
        is_ascii_text(method_name(m)),
        ascii_upper(method_name(m)) == method_name(m),
{
    reveal_strlit("GET");
    reveal_strlit("POST");
    reveal_strlit("PUT");
    reveal_strlit("PATCH");
    reveal_strlit("DELETE");
    let n = method_name(m);
    assert("GET"@ != "PUT"@) by {
        assert("GET"@[0] != "PUT"@[0]);
    }
    assert("POST"@.len() == 4 && "GET"@.len() == 3 && "PUT"@.len() == 3);
    assert("PATCH"@.len() == 5 && "DELETE"@.len() == 6);
    assert(ascii_upper(n) =~= n);
}

/// Reading the name that `to_string` prints gives back the method.
pub proof fn law_method_roundtrip(m: HttpMethod)
    ensures
        parse_method(method_name(m)) == Ok::<HttpMethod, Seq<char>>(m),
{
    lemma_method_name_roundtrip(m);
}

/// The ASCII uppercase of ASCII text is ASCII, and upper-casing it again
/// changes nothing.
pub proof fn lemma_ascii_upper_idempotent(s: Seq<char>)
    requires
        is_ascii_text(s),
    ensures
        is_ascii_text(ascii_upper(s)),
        ascii_upper(ascii_upper(s)) == ascii_upper(s),
{
    assert forall|i: int| 0 <= i < s.len() implies (ascii_upper(s)[i] as u32) < 128 by {
        let c = s[i];
        if 'a' <= c && c <= 'z' {
            assert((((c as u32) - 32) as char) as u32 == (c as u32) - 32);
        }
    }
    assert forall|i: int| 0 <= i < s.len() implies ascii_upper(ascii_upper(s))[i]
        == ascii_upper(s)[i] by {
        let c = s[i];
        if 'a' <= c && c <= 'z' {
            assert((((c as u32) - 32) as char) as u32 == (c as u32) - 32);
        }
    }
    assert(ascii_upper(ascii_upper(s)) =~= ascii_upper(s));
}

/// Method names are read without regard to ASCII letter case: an ASCII text
/// names the same method as its uppercase.
pub proof fn law_method_case_insensitive(s: Seq<char>)
    requires
        is_ascii_text(s),
    ensures
        method_named(uppercase(s)) == method_named(uppercase(ascii_upper(s))),
{
    lemma_ascii_upper_idempotent(s);
}

} // verus!
