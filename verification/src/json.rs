//! The resolved environment as one line of JSON.
//!
//! The environment is written as an object whose members are the entries in
//! their order, each name and each value a JSON string, with no whitespace
//! anywhere. The strings are written by `serde_json`; the object around them
//! is put together here.

use vstd::prelude::*;
use vstd::string::StringExecFns;
use crate::failure::Failure;
use crate::text::join;

verus! {

/// The error type of `serde_json`.
#[verifier::external_type_specification]
#[verifier::external_body]
pub struct ExJsonError(serde_json::Error);

/// The hexadecimal digit of `n`, in lower case.
pub open spec fn hex_digit(n: int) -> char {
    seq!['0', '1', '2', '3', '4', '5', '6', '7', '8', '9', 'a', 'b', 'c', 'd', 'e', 'f'][n]
}

/// The character `c` as it stands inside a JSON string: the quote, the
/// backslash and the control characters are escaped, every other character
/// stands for itself.
pub open spec fn escaped(c: char) -> Seq<char> {
    if c == '"' {
        seq!['\\', '"']
    } else if c == '\\' {
        seq!['\\', '\\']
    } else if c == '\u{8}' {
        seq!['\\', 'b']
    } else if c == '\t' {
        seq!['\\', 't']
    } else if c == '\n' {
        seq!['\\', 'n']
    } else if c == '\u{c}' {
        seq!['\\', 'f']
    } else if c == '\r' {
        seq!['\\', 'r']
    } else if (c as int) < 0x20 {
        seq!['\\', 'u', '0', '0', hex_digit(c as int / 16), hex_digit(c as int % 16)]
    } else {
        seq![c]
    }
}

/// The characters of `s`, each as it stands inside a JSON string.
pub open spec fn escaped_text(s: Seq<char>) -> Seq<char>
    decreases s.len(),
{
    if s.len() == 0 {
        Seq::empty()
    } else {
        escaped_text(s.drop_last()) + escaped(s.last())
    }
}

/// The JSON string for the text `s`: its characters, escaped, between
/// double quotes.
pub open spec fn json_string(s: Seq<char>) -> Seq<char> {
    seq!['"'] + escaped_text(s) + seq!['"']
}

/// Calls `serde_json::to_string` on a string slice. On a string the call
/// reports no error: it writes into a vector, and a string has nothing that
/// cannot be written. Its result is the JSON string of `s`: see
/// [`json_string`].
#[verifier::external_body]
fn encode_string(s: &str) -> (r: Result<String, serde_json::Error>)
    ensures
        r is Ok,
        r matches Ok(text) ==> text@ == json_string(s@),
{
    serde_json::to_string(s)
}

/// One member of an object: the name, a colon, the value.
pub open spec fn member_text(member: (Seq<char>, Seq<char>)) -> Seq<char> {
    member.0 + seq![':'] + member.1
}

/// The object with `members`, whose names and values are JSON texts
/// already: the members in order between braces, with a comma between each
/// two.
pub open spec fn object_text(members: Seq<(Seq<char>, Seq<char>)>) -> Seq<char> {
    seq!['{'] + join(members.map_values(|m: (Seq<char>, Seq<char>)| member_text(m)), seq![','])
        + seq!['}']
}

/// The entries of `env`, each name and each value as a JSON string.
pub open spec fn encoded(env: Seq<(Seq<char>, Seq<char>)>) -> Seq<(Seq<char>, Seq<char>)> {
    env.map_values(|entry: (Seq<char>, Seq<char>)| (json_string(entry.0), json_string(entry.1)))
}

/// The serialized environment.
pub open spec fn serialized_text(env: Seq<(Seq<char>, Seq<char>)>) -> Seq<char> {
    object_text(encoded(env))
}

/// Writes the object with `members`, whose names and values are JSON texts
/// already.
pub fn write_object(members: &Vec<(String, String)>) -> (r: String)
    ensures
        r@ == object_text(members.deep_view()),
{
    let ghost texts = members.deep_view().map_values(|m: (Seq<char>, Seq<char>)| member_text(m));
    let mut body = String::new();
    let mut i: usize = 0;
    while i < members.len()
        invariant
            i <= members.len(),
            texts == members.deep_view().map_values(|m: (Seq<char>, Seq<char>)| member_text(m)),
            body@ == join(texts.take(i as int), seq![',']),
        decreases members.len() - i,
    {
        proof {
            assert(texts.take(i + 1).drop_last() =~= texts.take(i as int));
            assert(texts.take(i + 1).last() == member_text(members.deep_view()[i as int]));
            reveal_strlit(",");
            reveal_strlit(":");
            assert(","@ =~= seq![',']);
            assert(":"@ =~= seq![':']);
        }
        if i > 0 {
            body.append(",");
        }
        body.append(members[i].0.as_str());
        body.append(":");
        body.append(members[i].1.as_str());
        i += 1;
    }
    proof {
        assert(texts.take(members.len() as int) =~= texts);
        reveal_strlit("{");
        reveal_strlit("}");
        assert("{"@ =~= seq!['{']);
        assert("}"@ =~= seq!['}']);
    }
    let mut out = String::from_str("{");
    out.append(body.as_str());
    out.append("}");
    out
}

/// Writes each name and each value of `env` as a JSON string. This always
/// succeeds; the failure is there for an error of `serde_json`, which
/// reports none on a string.
pub fn encode_entries(env: &Vec<(String, String)>) -> (r: Result<Vec<(String, String)>, Failure>)
    ensures
        r matches Ok(members) && members.deep_view() == encoded(env.deep_view()),
{
    let mut out: Vec<(String, String)> = Vec::new();
    let mut i: usize = 0;
    while i < env.len()
        invariant
            i <= env.len(),
            out.deep_view() == encoded(env.deep_view().take(i as int)),
        decreases env.len() - i,
    {
        let ghost before = out.deep_view();
        let name = match encode_string(env[i].0.as_str()) {
            Ok(text) => text,
            Err(_) => {
                return Err(Failure::Serialization);
            },
        };
        let value = match encode_string(env[i].1.as_str()) {
            Ok(text) => text,
            Err(_) => {
                return Err(Failure::Serialization);
            },
        };
        out.push((name, value));
        assert(out.deep_view() =~= before.push((name@, value@)));
        assert(encoded(env.deep_view().take(i + 1)) =~= encoded(
            env.deep_view().take(i as int),
        ).push((json_string(env.deep_view()[i as int].0), json_string(env.deep_view()[i as int].1))));
        i += 1;
    }
    assert(env.deep_view().take(env.len() as int) =~= env.deep_view());
    Ok(out)
}

/// Serializes `env`: see [`serialized_text`]. This always succeeds; the
/// failure is there for an error of `serde_json`, which reports none on a
/// string.
pub fn serialize(env: &Vec<(String, String)>) -> (r: Result<String, Failure>)
    ensures
        r matches Ok(text) && text@ == serialized_text(env.deep_view()),
{
    match encode_entries(env) {
        Ok(members) => Ok(write_object(&members)),
        Err(failure) => Err(failure),
    }
}

/// `c` stands for itself inside a JSON string.
pub open spec fn is_plain(c: char) -> bool {
    c != '"' && c != '\\' && (c as int) >= 0x20
}

/// A text of characters that stand for themselves is written between
/// quotes as it is.
pub proof fn lemma_plain_string(s: Seq<char>)
    requires
        forall|i: int| 0 <= i < s.len() ==> is_plain(#[trigger] s[i]),
    ensures
        json_string(s) == seq!['"'] + s + seq!['"'],
    decreases s.len(),
{
    if s.len() == 0 {
        assert(escaped_text(s) =~= s);
    } else {
        lemma_plain_string(s.drop_last());
        assert(is_plain(s[s.len() - 1]));
        assert(escaped_text(s.drop_last()) =~= s.drop_last()) by {
            assert((seq!['"'] + escaped_text(s.drop_last()) + seq!['"']).subrange(
                1,
                s.len() as int,
            ) =~= escaped_text(s.drop_last()));
            assert((seq!['"'] + s.drop_last() + seq!['"']).subrange(1, s.len() as int)
                =~= s.drop_last());
        }
        assert(escaped_text(s) =~= s);
    }
}

/// `text` holds no control character, and so no line break.
pub open spec fn one_line(text: Seq<char>) -> bool {
    forall|i: int| 0 <= i < text.len() ==> (#[trigger] text[i] as int) >= 0x20
}

/// Two texts on one line, put together, are on one line.
proof fn lemma_one_line_add(first: Seq<char>, second: Seq<char>)
    requires
        one_line(first),
        one_line(second),
    ensures
        one_line(first + second),
{
    assert forall|i: int| 0 <= i < (first + second).len() implies (#[trigger] (first + second)[i]
        as int) >= 0x20 by {
        if i < first.len() {
            assert((first + second)[i] == first[i]);
        } else {
            assert((first + second)[i] == second[i - first.len()]);
        }
    }
}

/// A character inside a JSON string takes no control character.
proof fn lemma_escaped_one_line(c: char)
    ensures
        one_line(escaped(c)),
{
    let text = escaped(c);
    if c != '"' && c != '\\' && (c as int) < 0x20 && c != '\u{8}' && c != '\t' && c != '\n' && c
        != '\u{c}' && c != '\r' {
        let high = c as int / 16;
        let low = c as int % 16;
        assert(0 <= high < 16 && 0 <= low < 16);
        assert(text.len() == 6);
        assert(text[4] == hex_digit(high));
        assert(text[5] == hex_digit(low));
        assert forall|n: int| 0 <= n < 16 implies (#[trigger] hex_digit(n) as int) >= 0x20 by {
            let digits = seq![
                '0',
                '1',
                '2',
                '3',
                '4',
                '5',
                '6',
                '7',
                '8',
                '9',
                'a',
                'b',
                'c',
                'd',
                'e',
                'f',
            ];
            assert(digits[n] as int >= 0x20);
        }
        assert forall|i: int| 0 <= i < text.len() implies (#[trigger] text[i] as int) >= 0x20 by {
            if i == 4 {
            } else if i == 5 {
            }
        }
    }
}

/// A JSON string is on one line, whatever the text holds.
proof fn lemma_json_string_one_line(s: Seq<char>)
    ensures
        one_line(escaped_text(s)),
        one_line(json_string(s)),
    decreases s.len(),
{
    if s.len() > 0 {
        lemma_json_string_one_line(s.drop_last());
        lemma_escaped_one_line(s.last());
        lemma_one_line_add(escaped_text(s.drop_last()), escaped(s.last()));
    }
    lemma_one_line_add(seq!['"'], escaped_text(s));
    lemma_one_line_add(seq!['"'] + escaped_text(s), seq!['"']);
}

/// Texts on one line, joined by a separator on one line, are on one line.
proof fn lemma_join_one_line(parts: Seq<Seq<char>>, sep: Seq<char>)
    requires
        forall|k: int| 0 <= k < parts.len() ==> one_line(#[trigger] parts[k]),
        one_line(sep),
    ensures
        one_line(join(parts, sep)),
    decreases parts.len(),
{
    if parts.len() == 1 {
        assert(one_line(parts[0]));
    } else if parts.len() > 1 {
        lemma_join_one_line(parts.drop_last(), sep);
        assert(one_line(parts[parts.len() - 1]));
        lemma_one_line_add(join(parts.drop_last(), sep), sep);
        lemma_one_line_add(join(parts.drop_last(), sep) + sep, parts.last());
    }
}

/// The serialized environment is one line between braces: it holds no
/// control character, whatever the names and the values hold, it begins
/// with the opening brace and ends with the closing one.
pub proof fn lemma_serialized_is_one_line(env: Seq<(Seq<char>, Seq<char>)>)
    ensures
        one_line(serialized_text(env)),
        serialized_text(env).first() == '{',
        serialized_text(env).last() == '}',
{
    let texts = encoded(env).map_values(|m: (Seq<char>, Seq<char>)| member_text(m));
    assert forall|k: int| 0 <= k < texts.len() implies one_line(#[trigger] texts[k]) by {
        lemma_json_string_one_line(env[k].0);
        lemma_json_string_one_line(env[k].1);
        lemma_one_line_add(json_string(env[k].0), seq![':']);
        lemma_one_line_add(json_string(env[k].0) + seq![':'], json_string(env[k].1));
    }
    lemma_join_one_line(texts, seq![',']);
    lemma_one_line_add(seq!['{'], join(texts, seq![',']));
    lemma_one_line_add(seq!['{'] + join(texts, seq![',']), seq!['}']);
}

/// The empty environment is serialized as a pair of braces.
pub proof fn lemma_empty_environment(env: Seq<(Seq<char>, Seq<char>)>)
    requires
        env.len() == 0,
    ensures
        serialized_text(env) == seq!['{', '}'],
{
    assert(serialized_text(env) =~= seq!['{', '}']);
}

} // verus!
