//! Naming rules for the generated declarations: converting host identifiers
//! to TypeScript identifiers, quoting field names that are not valid bare
//! keys, and formatting doc comments as JSDoc blocks.

use vstd::prelude::*;

use crate::strutil::{is_ascii_digit_char, is_ascii_lower, is_ascii_upper, join, join_with, push_char};

verus! {

/// String equality against a literal, through `String`'s own equality.
pub fn str_is(a: &String, b: &str) -> (r: bool)
    ensures
        r == (a@ == b@),
{
    *a == b.to_owned()
}

/// A character that may appear in a bare (unquoted) field key: ASCII
/// letters and digits, underscore, and the dollar sign.
pub open spec fn is_word_char(c: char) -> bool {
    is_ascii_upper(c) || is_ascii_lower(c) || is_ascii_digit_char(c) || c == '_' || c == '$'
}

/// A name usable as a bare object key: word characters only, not starting
/// with a digit. The empty name counts as bare and is left unquoted.
pub open spec fn is_bare_key(s: Seq<char>) -> bool {
    (forall|i: int| 0 <= i < s.len() ==> is_word_char(#[trigger] s[i])) && (s.len() > 0
        ==> !is_ascii_digit_char(s[0]))
}

/// The field key as written into an object type: the name itself when it is
/// a bare key, otherwise the name wrapped in double quotes.
pub open spec fn ts_field_spec(s: Seq<char>) -> Seq<char> {
    if is_bare_key(s) {
        s
    } else {
        seq!['"'] + s + seq!['"']
    }
}

/// Converts an arbitrary name to a valid TypeScript field key.
///
/// If the name contains characters beyond ASCII letters, digits, `_` and
/// `$`, or starts with a digit, it is wrapped in double quotes.
pub fn raw_name_to_ts_field(value: String) -> (r: String)
    ensures
        r@ == ts_field_spec(value@),
{
    let s = value.as_str();
    let n = s.unicode_len();
    let mut bare = true;
    let mut i: usize = 0;
    while i < n
        invariant
            i <= n,
            n == value@.len(),
            s@ == value@,
            bare == forall|j: int| 0 <= j < i ==> is_word_char(#[trigger] value@[j]),
        decreases n - i,
    {
        let c = s.get_char(i);
        let u = c as u32;
        let word = (65 <= u && u <= 90) || (97 <= u && u <= 122) || (48 <= u && u <= 57) || c == '_'
            || c == '$';
        bare = bare && word;
        i = i + 1;
    }
    if bare && n > 0 {
        let c0 = s.get_char(0);
        let u0 = c0 as u32;
        if 48 <= u0 && u0 <= 57 {
            bare = false;
        }
    }
    if bare {
        value
    } else {
        let mut r = String::new();
        r.append("\"");
        r.append(value.as_str());
        r.append("\"");
        proof {
            reveal_strlit("\"");
            assert("\""@ =~= seq!['"']);
            assert(r@ =~= seq!['"'] + value@ + seq!['"']);
        }
        r
    }
}

/// The identifier with a raw-identifier prefix (`r#`) removed.
pub open spec fn ts_ident_spec(s: Seq<char>) -> Seq<char> {
    if s.len() >= 2 && s[0] == 'r' && s[1] == '#' {
        s.skip(2)
    } else {
        s
    }
}

/// Converts a host identifier to a TypeScript identifier by stripping the
/// raw-identifier prefix, if present.
pub fn to_ts_ident(ident: &str) -> (r: String)
    ensures
        r@ == ts_ident_spec(ident@),
{
    let n = ident.unicode_len();
    if n >= 2 {
        let c0 = ident.get_char(0);
        let c1 = ident.get_char(1);
        if c0 == 'r' && c1 == '#' {
            let rest = ident.substring_char(2, n);
            proof {
                assert(ident@.subrange(2, n as int) =~= ident@.skip(2));
            }
            return rest.to_owned();
        }
    }
    ident.to_owned()
}

/// ASCII whitespace, as far as doc-comment trimming is concerned.
pub open spec fn is_space_char(c: char) -> bool {
    c == ' ' || c == '\t' || c == '\r' || c == '\n'
}

/// The string with trailing whitespace removed.
pub open spec fn trim_end_spec(s: Seq<char>) -> Seq<char>
    decreases s.len(),
{
    if s.len() > 0 && is_space_char(s.last()) {
        trim_end_spec(s.drop_last())
    } else {
        s
    }
}

/// Whether the string consists of whitespace only.
pub open spec fn all_space(s: Seq<char>) -> bool {
    forall|i: int| 0 <= i < s.len() ==> is_space_char(#[trigger] s[i])
}

/// One line of a JSDoc block: ` *` for blank lines, otherwise ` *` followed
/// by the line with its trailing whitespace removed.
pub open spec fn doc_line_spec(l: Seq<char>) -> Seq<char> {
    if all_space(l) {
        " *"@
    } else {
        " *"@ + trim_end_spec(l)
    }
}

/// The JSDoc block for the given doc lines: empty for no lines, otherwise
/// `/**`, one ` *` line per doc line, and ` */`.
pub open spec fn docs_spec(lines: Seq<Seq<char>>) -> Seq<char> {
    if lines.len() == 0 {
        Seq::empty()
    } else {
        "/**\n"@ + join_with(lines.map_values(|l: Seq<char>| doc_line_spec(l)), "\n"@) + "\n */\n"@
    }
}

/// Removes trailing whitespace.
fn trim_end(s: &str) -> (r: String)
    ensures
        r@ == trim_end_spec(s@),
    decreases s@.len(),
{
    let n = s.unicode_len();
    if n > 0 {
        let c = s.get_char(n - 1);
        if c == ' ' || c == '\t' || c == '\r' || c == '\n' {
            let head = s.substring_char(0, n - 1);
            proof {
                assert(s@.subrange(0, n - 1) =~= s@.drop_last());
            }
            return trim_end(head);
        }
    }
    s.to_owned()
}

/// Formats doc-comment lines as a JSDoc block.
///
/// Each line becomes a ` *` line with trailing whitespace removed (blank
/// lines become a bare ` *`); no lines produce the empty string.
pub fn parse_docs(lines: &Vec<String>) -> (r: String)
    ensures
        r@ == docs_spec(lines@.map_values(|l: String| l@)),
{
    let ghost glines = lines@.map_values(|l: String| l@);
    if lines.len() == 0 {
        return String::new();
    }
    let mut formatted: Vec<String> = Vec::new();
    let mut i: usize = 0;
    while i < lines.len()
        invariant
            i <= lines@.len(),
            glines == lines@.map_values(|l: String| l@),
            formatted@.map_values(|l: String| l@) == glines.take(i as int).map_values(
                |l: Seq<char>| doc_line_spec(l),
            ),
        decreases lines@.len() - i,
    {
        let line = &lines[i];
        let s = line.as_str();
        let n = s.unicode_len();
        let mut blank = true;
        let mut j: usize = 0;
        while j < n
            invariant
                j <= n,
                n == line@.len(),
                s@ == line@,
                blank == forall|k: int| 0 <= k < j ==> is_space_char(#[trigger] line@[k]),
            decreases n - j,
        {
            let c = s.get_char(j);
            let sp = c == ' ' || c == '\t' || c == '\r' || c == '\n';
            blank = blank && sp;
            j = j + 1;
        }
        let mut item = String::new();
        item.append(" *");
        if !blank {
            let t = trim_end(s);
            item.append(t.as_str());
        }
        formatted.push(item);
        proof {
            assert(glines.take(i + 1) =~= glines.take(i as int).push(line@));
            assert(formatted@.map_values(|l: String| l@) =~= glines.take(i as int).map_values(
                |l: Seq<char>| doc_line_spec(l),
            ).push(doc_line_spec(line@)));
            assert(glines.take(i + 1).map_values(|l: Seq<char>| doc_line_spec(l)) =~= glines.take(
                i as int,
            ).map_values(|l: Seq<char>| doc_line_spec(l)).push(doc_line_spec(line@)));
        }
        i = i + 1;
    }
    let body = join(&formatted, "\n");
    let mut r = String::new();
    r.append("/**\n");
    r.append(body.as_str());
    r.append("\n */\n");
    proof {
        assert(glines.take(lines@.len() as int) =~= glines);
    }
    r
}

} // verus!
