//! Conversion of a markdown agent definition into the TOML configuration
//! format some providers read.

use vstd::prelude::*;
use crate::text::{chars_of, extend, lit, string_of, trim, trim_chars};
use crate::scan::{extract_frontmatter_field, frontmatter_field};
use crate::drift::{parts, split_parts};

verus! {

/// A character escaped for a TOML basic string: `"` and `\` get a
/// backslash.
pub open spec fn escape_char(c: char) -> Seq<char> {
    if c == '"' {
        seq!['\\', '"']
    } else if c == '\\' {
        seq!['\\', '\\']
    } else {
        seq![c]
    }
}

/// A text escaped for a TOML basic string.
pub open spec fn escape_toml_seq(s: Seq<char>) -> Seq<char>
    decreases s.len(),
{
    if s.len() == 0 {
        Seq::empty()
    } else {
        escape_toml_seq(s.drop_last()) + escape_char(s.last())
    }
}

/// Escapes double quotes and backslashes (see `escape_toml_seq`).
pub fn escape_toml_string(value: &str) -> (r: String)
    ensures
        r@ == escape_toml_seq(value@),
{
    let v = chars_of(value);
    let mut out: Vec<char> = Vec::new();
    let mut i: usize = 0;
    while i < v.len()
        invariant
            i <= v.len(),
            v@ == value@,
            out@ == escape_toml_seq(v@.take(i as int)),
        decreases v.len() - i,
    {
        proof {
            assert(v@.take(i + 1).drop_last() =~= v@.take(i as int));
            assert(v@.take(i + 1).last() == v@[i as int]);
        }
        let c = v[i];
        if c == '"' {
            out.push('\\');
            out.push('"');
        } else if c == '\\' {
            out.push('\\');
            out.push('\\');
        } else {
            out.push(c);
        }
        proof {
            assert(out@ =~= escape_toml_seq(v@.take(i as int)) + escape_char(c));
        }
        i = i + 1;
    }
    assert(v@.take(v.len() as int) =~= v@);
    string_of(&out)
}

/// The TOML text for a markdown definition: a `# source:` comment, the
/// escaped `description` frontmatter field, and the trimmed body as a
/// multi-line `instructions` string whose closing quotes stand on a line of
/// their own.
pub open spec fn toml_seq(source_name: Seq<char>, content: Seq<char>) -> Seq<char> {
    "# source: "@ + source_name + "\ndescription = \""@ + escape_toml_seq(
        frontmatter_field(content, "description"@),
    ) + "\"\ninstructions = \"\"\"\n"@ + trim(parts(content).1) + "\n\"\"\"\n"@
}

/// Converts a markdown definition to TOML (see `toml_seq`); the conversion
/// always succeeds.
pub fn markdown_to_toml(source_name: &str, content: &str) -> (r: Result<String, String>)
    ensures
        r matches Ok(t) && t@ == toml_seq(source_name@, content@),
{
    let description = extract_frontmatter_field(content, "description");
    let (_, body) = split_parts(content);
    let mut out = lit("# source: ");
    extend(&mut out, &chars_of(source_name));
    extend(&mut out, &lit("\ndescription = \""));
    extend(&mut out, &chars_of(escape_toml_string(description.as_str()).as_str()));
    extend(&mut out, &lit("\"\ninstructions = \"\"\"\n"));
    extend(&mut out, &trim_chars(&chars_of(body.as_str())));
    extend(&mut out, &lit("\n\"\"\"\n"));
    Ok(string_of(&out))
}

/// How TOML reads the characters of a basic string: `\\` stands for a
/// backslash, `\"` for a quote, `\t`, `\n`, `\r`, `\b` and `\f` for tab,
/// newline, carriage return, backspace and form feed; any other character
/// stands for itself.
pub open spec fn toml_unescape(s: Seq<char>) -> Seq<char>
    decreases s.len(),
{
    if s.len() == 0 {
        Seq::empty()
    } else if s[0] == '\\' && s.len() >= 2 {
        let c = s[1];
        let d = if c == 't' {
            '\t'
        } else if c == 'n' {
            '\n'
        } else if c == 'r' {
            '\r'
        } else if c == 'b' {
            '\u{8}'
        } else if c == 'f' {
            '\u{c}'
        } else {
            c
        };
        seq![d] + toml_unescape(s.skip(2))
    } else {
        seq![s[0]] + toml_unescape(s.skip(1))
    }
}

proof fn lemma_escape_front(s: Seq<char>)
    requires
        s.len() > 0,
    ensures
        escape_toml_seq(s) == escape_char(s[0]) + escape_toml_seq(s.drop_first()),
    decreases s.len(),
{
    if s.len() == 1 {
        assert(s.drop_last().len() == 0);
        assert(s.drop_first().len() == 0);
        assert(escape_toml_seq(s.drop_last()) == Seq::<char>::empty());
        assert(escape_toml_seq(s.drop_first()) == Seq::<char>::empty());
        assert(s.last() == s[0]);
        assert(escape_toml_seq(s) =~= escape_char(s[0]) + escape_toml_seq(s.drop_first()));
    } else {
        lemma_escape_front(s.drop_last());
        assert(s.drop_last()[0] == s[0]);
        assert(s.drop_last().drop_first() =~= s.drop_first().drop_last());
        assert(s.drop_first().last() == s.last());
        assert(escape_toml_seq(s.drop_first()) == escape_toml_seq(s.drop_first().drop_last()) + escape_char(
            s.drop_first().last(),
        ));
        assert(escape_toml_seq(s) =~= escape_char(s[0]) + escape_toml_seq(s.drop_first()));
    }
}

/// Escaping round-trips: TOML reads the escaped text of a value back as
/// the value itself, so backslashes and quotes in a description survive.
pub proof fn lemma_escape_round_trips(s: Seq<char>)
    ensures
        toml_unescape(escape_toml_seq(s)) == s,
    decreases s.len(),
{
    if s.len() > 0 {
        lemma_escape_front(s);
        lemma_escape_round_trips(s.drop_first());
        let e = escape_toml_seq(s);
        let rest = escape_toml_seq(s.drop_first());
        let c = s[0];
        if c == '"' || c == '\\' {
            assert(e[0] == '\\' && e[1] == c);
            assert(e.skip(2) =~= rest);
        } else {
            assert(e[0] == c);
            assert(e.skip(1) =~= rest);
        }
        assert(toml_unescape(e) =~= s);
    }
}

} // verus!
