//! URL handling: parsing and joining through the url crate, and the pure
//! scheme and extension readers the import engine uses.
//!
//! The library keeps URLs as their normalized serialization strings; the
//! url crate computes parses and joins as functions from strings to
//! strings.

use vstd::prelude::*;

verus! {

/// The normalized serialization of a parsed URL string, or `None` when the
/// text is not an absolute URL. A pure function of the text.
pub uninterp spec fn url_parse_of(s: Seq<char>) -> Option<Seq<char>>;

/// Relies on url::Url::parse: parsing either yields a URL, serialized in
/// normalized form, or fails; the outcome depends on the text alone.
#[verifier::external_body]
pub fn parse_url(s: &str) -> (r: Option<String>)
    ensures
        match r {
            Some(u) => url_parse_of(s@) == Some(u@),
            None => url_parse_of(s@) is None,
        },
{
    match url::Url::parse(s) {
        Ok(u) => Some(String::from(u)),
        Err(_) => None,
    }
}

/// The normalized serialization of a relative reference joined against a
/// base URL string, or `None` when the base does not parse or the join
/// fails. A pure function of the two texts.
pub uninterp spec fn url_join_of(base: Seq<char>, rel: Seq<char>) -> Option<Seq<char>>;

/// Relies on url::Url::parse and url::Url::join: joining a relative
/// reference against a base URL is a function of the two texts alone.
#[verifier::external_body]
pub fn join_url(base: &str, rel: &str) -> (r: Option<String>)
    ensures
        match r {
            Some(u) => url_join_of(base@, rel@) == Some(u@),
            None => url_join_of(base@, rel@) is None,
        },
{
    let base = match url::Url::parse(base) {
        Ok(b) => b,
        Err(_) => return None,
    };
    match base.join(rel) {
        Ok(u) => Some(String::from(u)),
        Err(_) => None,
    }
}

/// The scheme of a normalized URL string: its characters before the first
/// colon. The url crate normalizes schemes to lowercase ASCII and always
/// serializes `scheme:`, so on its output this reads the scheme exactly.
pub open spec fn spec_scheme_of(s: Seq<char>) -> Seq<char> {
    spec_before_char(s, ':', 0)
}

/// The characters of `s` from `from` up to the first occurrence of `c`, or
/// to the end when it does not occur.
pub open spec fn spec_before_char(s: Seq<char>, c: char, from: int) -> Seq<char>
    decreases s.len() - from,
{
    if from < 0 || from >= s.len() {
        Seq::empty()
    } else if s[from] == c {
        Seq::empty()
    } else {
        seq![s[from]] + spec_before_char(s, c, from + 1)
    }
}

/// Reads the scheme of a normalized URL string.
pub fn url_scheme(s: &str) -> (r: String)
    ensures
        r@ == spec_scheme_of(s@),
{
    let len = s.unicode_len();
    let mut i: usize = 0;
    let mut out = String::new();
    while i < len
        invariant
            len == s@.len(),
            i <= len,
            out@ + spec_before_char(s@, ':', i as int) == spec_before_char(s@, ':', 0),
            forall|j: int| 0 <= j < i ==> s@[j] != ':',
        decreases len - i,
    {
        let c = s.get_char(i);
        if c == ':' {
            proof {
                assert(spec_before_char(s@, ':', i as int) =~= Seq::<char>::empty());
                assert(out@ =~= out@ + Seq::<char>::empty());
            }
            return out;
        }
        let one = s.substring_char(i, i + 1);
        out.append(one);
        proof {
            assert(one@ =~= seq![s@[i as int]]);
        }
        i = i + 1;
    }
    proof {
        assert(spec_before_char(s@, ':', len as int) =~= Seq::<char>::empty());
        assert(out@ =~= out@ + Seq::<char>::empty());
    }
    out
}

/// The index of the last occurrence of a character, if any.
pub open spec fn spec_last_index_of(s: Seq<char>, c: char) -> Option<int>
    decreases s.len(),
{
    if s.len() == 0 {
        None
    } else if s.last() == c {
        Some(s.len() - 1)
    } else {
        spec_last_index_of(s.drop_last(), c)
    }
}

proof fn lemma_last_index_bounds(s: Seq<char>, c: char)
    ensures
        match spec_last_index_of(s, c) {
            Some(i) => 0 <= i < s.len() && s[i] == c && (forall|j: int| i < j < s.len() ==> s[j] != c),
            None => forall|j: int| 0 <= j < s.len() ==> s[j] != c,
        },
    decreases s.len(),
{
    if s.len() > 0 && s.last() != c {
        lemma_last_index_bounds(s.drop_last(), c);
        match spec_last_index_of(s.drop_last(), c) {
            Some(i) => {
                assert(s[i] == s.drop_last()[i]);
                assert forall|j: int| i < j < s.len() implies s[j] != c by {
                    if j < s.len() - 1 {
                        assert(s.drop_last()[j] != c);
                    }
                }
            },
            None => {
                assert forall|j: int| 0 <= j < s.len() implies s[j] != c by {
                    if j < s.len() - 1 {
                        assert(s.drop_last()[j] != c);
                    }
                }
            },
        }
    }
}

/// Finds the last occurrence of a character.
pub fn last_index_of(s: &str, c: char) -> (r: Option<usize>)
    ensures
        match r {
            Some(i) => spec_last_index_of(s@, c) == Some(i as int),
            None => spec_last_index_of(s@, c) is None,
        },
{
    proof {
        lemma_last_index_bounds(s@, c);
    }
    let len = s.unicode_len();
    let mut i: usize = len;
    while i > 0
        invariant
            len == s@.len(),
            i <= len,
            forall|j: int| i <= j < len ==> s@[j] != c,
        decreases i,
    {
        i = i - 1;
        if s.get_char(i) == c {
            proof {
                lemma_last_index_is(s@, c, i as int);
            }
            return Some(i);
        }
    }
    None
}

proof fn lemma_last_index_is(s: Seq<char>, c: char, i: int)
    requires
        0 <= i < s.len(),
        s[i] == c,
        forall|j: int| i < j < s.len() ==> s[j] != c,
    ensures
        spec_last_index_of(s, c) == Some(i),
    decreases s.len(),
{
    if i == s.len() - 1 {
    } else {
        lemma_last_index_is(s.drop_last(), c, i);
    }
}

/// The extension of a URL path: the characters after the last dot, when
/// the path has both a dot and a slash and the dot comes after the last
/// slash's component start; otherwise none.
pub open spec fn spec_url_ext(path: Seq<char>) -> Option<Seq<char>> {
    match (spec_last_index_of(path, '.'), spec_last_index_of(path, '/')) {
        (Some(dot), Some(sep)) => if dot <= sep + 1 {
            None
        } else {
            Some(path.skip(dot + 1))
        },
        _ => None,
    }
}

/// Reads the extension of a URL path, as the importer guess uses it.
pub fn url_ext(path: &str) -> (r: Option<&str>)
    ensures
        match r {
            Some(e) => spec_url_ext(path@) == Some(e@),
            None => spec_url_ext(path@) is None,
        },
{
    proof {
        lemma_last_index_bounds(path@, '.');
        lemma_last_index_bounds(path@, '/');
    }
    let len = path.unicode_len();
    let dot = match last_index_of(path, '.') {
        None => {
            return None;
        },
        Some(d) => d,
    };
    let sep = match last_index_of(path, '/') {
        None => {
            return None;
        },
        Some(s) => s,
    };
    if dot <= sep + 1 {
        None
    } else {
        let ext = path.substring_char(dot + 1, len);
        proof {
            assert(path@.subrange(dot + 1int, path@.len() as int) =~= path@.skip(dot + 1int));
        }
        Some(ext)
    }
}

} // verus!
