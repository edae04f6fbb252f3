use crate::strutil::digit_char;
use crate::strutil::i64_to_string;
use crate::strutil::int_str;
use crate::strutil::join_sep;
use crate::strutil::join_with;
use crate::strutil::str_views;
use vstd::prelude::*;
use vstd::string::StrSliceExecFns;
use vstd::string::StringExecFns;

verus! {

/// One instance-variable value: a scalar, or a nested mapping whose entry
/// order is the order the caller supplied.
pub enum VarValue {
    Int(i64),
    Bool(bool),
    Str(String),
    Object(Vec<(String, VarValue)>),
}

/// The lower-case hexadecimal character for a value below 16.
pub open spec fn hex_char(d: nat) -> char {
    if d < 10 {
        digit_char(d)
    } else if d == 10 {
        'a'
    } else if d == 11 {
        'b'
    } else if d == 12 {
        'c'
    } else if d == 13 {
        'd'
    } else if d == 14 {
        'e'
    } else {
        'f'
    }
}

/// The JSON escape of one character: quote and backslash escaped, control
/// characters in their short or `\u00..` form, every other character kept.
pub open spec fn escape_char(c: char) -> Seq<char> {
    if c == '"' {
        "\\\""@
    } else if c == '\\' {
        "\\\\"@
    } else if (c as u32) == 8 {
        "\\b"@
    } else if (c as u32) == 9 {
        "\\t"@
    } else if (c as u32) == 10 {
        "\\n"@
    } else if (c as u32) == 12 {
        "\\f"@
    } else if (c as u32) == 13 {
        "\\r"@
    } else if (c as u32) < 32 {
        "\\u00"@ + seq![
            hex_char(((c as u32) / 16) as nat),
            hex_char(((c as u32) % 16) as nat),
        ]
    } else {
        seq![c]
    }
}

/// The JSON escape of a string, character by character.
pub open spec fn json_escaped(s: Seq<char>) -> Seq<char>
    decreases s.len(),
{
    if s.len() == 0 {
        Seq::empty()
    } else {
        json_escaped(s.drop_last()) + escape_char(s.last())
    }
}

/// The string with every literal double quote replaced by its percent
/// encoding.
pub open spec fn pct_quotes(s: Seq<char>) -> Seq<char>
    decreases s.len(),
{
    if s.len() == 0 {
        Seq::empty()
    } else {
        pct_quotes(s.drop_last()) + (if s.last() == '"' {
            "%22"@
        } else {
            seq![s.last()]
        })
    }
}

/// The canonical text of one scalar: numbers and booleans bare, strings
/// JSON-quoted.
pub open spec fn scalar_text(v: VarValue) -> Seq<char>
    recommends
        !(v is Object),
{
    match v {
        VarValue::Int(n) => int_str(n as int),
        VarValue::Bool(b) => if b {
            "true"@
        } else {
            "false"@
        },
        VarValue::Str(s) => seq!['"'] + json_escaped(s@) + seq!['"'],
        VarValue::Object(_) => Seq::empty(),
    }
}

/// The key path of this node: the keys from the top, dot-joined; empty at
/// the top itself.
pub open spec fn path_text(path: Option<Seq<char>>) -> Seq<char> {
    match path {
        Option::None => Seq::empty(),
        Option::Some(p) => p,
    }
}

/// The key path of a child under an optional parent path.
pub open spec fn child_path(parent: Option<Seq<char>>, key: Seq<char>) -> Seq<char> {
    match parent {
        Option::None => key,
        Option::Some(p) => p + "."@ + key,
    }
}

/// The query fragments of one value at a given key path: one `vars.` pair
/// for a scalar, the fragments of every entry in encounter order for a
/// mapping.
pub open spec fn fragments(v: VarValue, path: Option<Seq<char>>) -> Seq<Seq<char>>
    decreases v, 1int,
{
    match v {
        VarValue::Object(entries) => entry_fragments(entries@, path),
        _ => seq![pct_quotes("vars."@ + path_text(path) + "="@ + scalar_text(v))],
    }
}

/// The query fragments of a mapping's entries, in encounter order.
pub open spec fn entry_fragments(
    entries: Seq<(String, VarValue)>,
    path: Option<Seq<char>>,
) -> Seq<Seq<char>>
    decreases entries, 0int,
{
    if entries.len() == 0 {
        Seq::empty()
    } else {
        entry_fragments(entries.drop_last(), path) + fragments(
            entries.last().1,
            Some(child_path(path, entries.last().0@)),
        )
    }
}

/// The path of an optional parent string.
pub open spec fn opt_path_view(path: Option<&String>) -> Option<Seq<char>> {
    match path {
        Option::None => Option::None,
        Option::Some(p) => Option::Some(p@),
    }
}

fn hex_to_char(d: u32) -> (c: char)
    requires
        d < 16,
    ensures
        c == hex_char(d as nat),
{
    if d == 0 {
        '0'
    } else if d == 1 {
        '1'
    } else if d == 2 {
        '2'
    } else if d == 3 {
        '3'
    } else if d == 4 {
        '4'
    } else if d == 5 {
        '5'
    } else if d == 6 {
        '6'
    } else if d == 7 {
        '7'
    } else if d == 8 {
        '8'
    } else if d == 9 {
        '9'
    } else if d == 10 {
        'a'
    } else if d == 11 {
        'b'
    } else if d == 12 {
        'c'
    } else if d == 13 {
        'd'
    } else if d == 14 {
        'e'
    } else {
        'f'
    }
}

/// Appends the JSON escape of one character.
fn push_escaped_char(out: &mut String, c: char)
    ensures
        final(out)@ == old(out)@ + escape_char(c),
{
    let u = c as u32;
    if c == '"' {
        out.append("\\\"");
    } else if c == '\\' {
        out.append("\\\\");
    } else if u == 8 {
        out.append("\\b");
    } else if u == 9 {
        out.append("\\t");
    } else if u == 10 {
        out.append("\\n");
    } else if u == 12 {
        out.append("\\f");
    } else if u == 13 {
        out.append("\\r");
    } else if u < 32 {
        out.append("\\u00");
        let hi = hex_to_char(u / 16);
        let lo = hex_to_char(u % 16);
        out.push(hi);
        out.push(lo);
        proof {
            assert(escape_char(c) =~= "\\u00"@ + seq![
                hex_char(((c as u32) / 16) as nat),
                hex_char(((c as u32) % 16) as nat),
            ]);
            assert(old(out)@ + "\\u00"@ + seq![hex_char((u / 16) as nat)] + seq![
                hex_char((u % 16) as nat),
            ] =~= old(out)@ + escape_char(c));
        }
    } else {
        out.push(c);
        proof {
            assert(old(out)@.push(c) =~= old(out)@ + seq![c]);
        }
    }
}

/// The JSON escape of a string.
pub(crate) fn escape_json(s: &str) -> (r: String)
    ensures
        r@ == json_escaped(s@),
{
    let n = s.unicode_len();
    let mut r = String::new();
    let mut i: usize = 0;
    while i < n
        invariant
            0 <= i <= n,
            n == s@.len(),
            r@ == json_escaped(s@.take(i as int)),
        decreases n - i,
    {
        let c = s.get_char(i);
        push_escaped_char(&mut r, c);
        proof {
            assert(s@.take(i + 1).drop_last() =~= s@.take(i as int));
            assert(s@.take(i + 1).last() == s@[i as int]);
        }
        i = i + 1;
    }
    proof {
        assert(s@.take(n as int) =~= s@);
    }
    r
}

/// The string with every literal double quote replaced by `%22`.
fn replace_quotes(s: &str) -> (r: String)
    ensures
        r@ == pct_quotes(s@),
{
    let n = s.unicode_len();
    let mut r = String::new();
    let mut i: usize = 0;
    while i < n
        invariant
            0 <= i <= n,
            n == s@.len(),
            r@ == pct_quotes(s@.take(i as int)),
        decreases n - i,
    {
        let c = s.get_char(i);
        if c == '"' {
            r.append("%22");
        } else {
            r.push(c);
            proof {
                assert(pct_quotes(s@.take(i as int)).push(c) =~= pct_quotes(
                    s@.take(i as int),
                ) + seq![c]);
            }
        }
        proof {
            assert(s@.take(i + 1).drop_last() =~= s@.take(i as int));
            assert(s@.take(i + 1).last() == s@[i as int]);
        }
        i = i + 1;
    }
    proof {
        assert(s@.take(n as int) =~= s@);
    }
    r
}

/// The canonical text of one scalar.
fn scalar_to_string(v: &VarValue) -> (r: String)
    requires
        !(*v is Object),
    ensures
        r@ == scalar_text(*v),
{
    match v {
        VarValue::Int(n) => i64_to_string(*n),
        VarValue::Bool(b) => {
            if *b {
                String::from_str("true")
            } else {
                String::from_str("false")
            }
        },
        VarValue::Str(s) => {
            let mut r = String::from_str("\"");
            let esc = escape_json(s.as_str());
            r.append(esc.as_str());
            r.append("\"");
            proof {
                reveal_strlit("\"");
                assert("\""@ =~= seq!['"']);
                assert(seq!['"'] + json_escaped(s@) + seq!['"'] =~= ("\""@ + json_escaped(
                    s@,
                )) + "\""@);
            }
            r
        },
        VarValue::Object(_) => String::new(),
    }
}

/// Appends the fragments of one value at its key path, in encounter order.
fn push_fragments(v: &VarValue, path: Option<&String>, out: &mut Vec<String>)
    ensures
        str_views(final(out)@) == str_views(old(out)@) + fragments(*v, opt_path_view(path)),
    decreases *v, 1int,
{
    let ghost pv = opt_path_view(path);
    match v {
        VarValue::Object(entries) => {
            push_entry_fragments(entries, path, out);
        },
        _ => {
            let mut raw = String::from_str("vars.");
            if let Some(p) = path {
                raw.append(p.as_str());
            }
            raw.append("=");
            let st = scalar_to_string(v);
            raw.append(st.as_str());
            proof {
                reveal_strlit("vars.");
                reveal_strlit("=");
                assert(raw@ =~= "vars."@ + path_text(pv) + "="@ + scalar_text(*v));
            }
            let frag = replace_quotes(raw.as_str());
            out.push(frag);
            proof {
                assert(str_views(final(out)@) =~= str_views(old(out)@) + fragments(
                    *v,
                    pv,
                ));
            }
        },
    }
}

/// Appends the fragments of a mapping's entries, in encounter order.
fn push_entry_fragments(
    entries: &Vec<(String, VarValue)>,
    path: Option<&String>,
    out: &mut Vec<String>,
)
    ensures
        str_views(final(out)@) == str_views(old(out)@) + entry_fragments(
            entries@,
            opt_path_view(path),
        ),
    decreases entries@, 0int,
{
    let ghost pv = opt_path_view(path);
    let mut i: usize = 0;
    while i < entries.len()
        invariant
            0 <= i <= entries.len(),
            pv == opt_path_view(path),
            str_views(out@) == str_views(old(out)@) + entry_fragments(
                entries@.take(i as int),
                pv,
            ),
        decreases entries@.len() - i,
    {
        let key = &entries[i].0;
        let child: String = match path {
            Option::Some(parent) => {
                let mut q = parent.clone();
                q.append(".");
                q.append(key.as_str());
                q
            },
            Option::None => key.clone(),
        };
        proof {
            reveal_strlit(".");
            assert(child@ =~= child_path(pv, key@));
        }
        push_fragments(&entries[i].1, Some(&child), out);
        proof {
            assert(entries@.take(i + 1).drop_last() =~= entries@.take(i as int));
            assert(entries@.take(i + 1).last() == entries@[i as int]);
            assert(str_views(out@) =~= str_views(old(out)@) + entry_fragments(
                entries@.take(i + 1),
                pv,
            ));
        }
        i = i + 1;
    }
    proof {
        assert(entries@.take(entries@.len() as int) =~= entries@);
    }
}

/// Flattens a nested instance-variable mapping into a stable query string:
/// one dot-pathed `vars.` pair per scalar, in encounter order, joined with
/// `&`; no value at all when the mapping contributes no scalar.
pub fn compose_params_from_instance_vars(
    instance_vars: &Vec<(String, VarValue)>,
    parent: Option<&String>,
) -> (r: Option<String>)
    ensures
        ({
            let fs = entry_fragments(instance_vars@, opt_path_view(parent));
            match r {
                Option::Some(s) => fs.len() > 0 && s@ == join_sep(fs, "&"@),
                Option::None => fs.len() == 0,
            }
        }),
{
    let mut frags: Vec<String> = Vec::new();
    push_entry_fragments(instance_vars, parent, &mut frags);
    proof {
        assert(str_views(frags@) =~= entry_fragments(instance_vars@, opt_path_view(parent)));
        assert(str_views(frags@).len() == frags@.len());
    }
    if frags.len() == 0 {
        Option::None
    } else {
        Option::Some(join_with(&frags, "&"))
    }
}

/// Law: a nested key always renders as the dot-joined path of its parents:
/// a scalar under `key` below `parent` emits exactly one pair, named by
/// `parent`, a dot, and `key`.
pub proof fn lemma_nested_key_dot_joined(parent: Seq<char>, key: Seq<char>, v: VarValue)
    requires
        !(v is Object),
    ensures
        child_path(Some(parent), key) == parent + "."@ + key,
        fragments(v, Some(child_path(Some(parent), key))) == seq![
            pct_quotes("vars."@ + (parent + "."@ + key) + "="@ + scalar_text(v)),
        ],
{
}

} // verus!
