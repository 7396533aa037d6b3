//! Writing a configuration value as JSON text: the form in which a merged
//! snapshot is handed to the template engine.
use vstd::prelude::*;

use crate::strutil::{int_text, int_to_text, push_char};
use crate::value::{deep, deep_entries, deep_items, ConfigValue, SpecValue};

verus! {

/// One hexadecimal digit, lower case.
pub open spec fn hex_digit(n: int) -> char {
    if n < 10 {
        ((n + 48) as u8) as char
    } else {
        ((n + 87) as u8) as char
    }
}

/// The JSON escape of one character inside a quoted string.
pub open spec fn escape_char(c: char) -> Seq<char> {
    if c == '"' {
        seq!['\\', '"']
    } else if c == '\\' {
        seq!['\\', '\\']
    } else if c == '\n' {
        seq!['\\', 'n']
    } else if c == '\r' {
        seq!['\\', 'r']
    } else if c == '\t' {
        seq!['\\', 't']
    } else if (c as int) < 32 {
        seq!['\\', 'u', '0', '0', hex_digit(c as int / 16), hex_digit(c as int % 16)]
    } else {
        seq![c]
    }
}

/// A string's characters, each escaped.
pub open spec fn escape_string(s: Seq<char>) -> Seq<char>
    decreases s.len(),
{
    if s.len() == 0 {
        Seq::empty()
    } else {
        escape_string(s.drop_last()) + escape_char(s.last())
    }
}

/// A string quoted and escaped as a JSON string.
pub open spec fn quoted(s: Seq<char>) -> Seq<char> {
    seq!['"'] + escape_string(s) + seq!['"']
}

/// The JSON text of a value.
pub open spec fn json_text(v: SpecValue) -> Seq<char>
    decreases v,
{
    match v {
        SpecValue::Null => seq!['n', 'u', 'l', 'l'],
        SpecValue::Bool(b) => if b {
            seq!['t', 'r', 'u', 'e']
        } else {
            seq!['f', 'a', 'l', 's', 'e']
        },
        SpecValue::Int(n) => int_text(n as int),
        SpecValue::Num(s) => s,
        SpecValue::Text(s) => quoted(s),
        SpecValue::Sequence(items) => {
            proof {
                assert(decreases_to!(v => v->Sequence_0));
            }
            seq!['['] + json_items(items) + seq![']']
        },
        SpecValue::Tree(entries) => {
            proof {
                assert(decreases_to!(v => v->Tree_0));
            }
            seq!['{'] + json_entries(entries) + seq!['}']
        },
    }
}

/// The elements of a JSON array, comma-separated.
pub open spec fn json_items(items: Seq<SpecValue>) -> Seq<char>
    decreases items,
{
    if items.len() == 0 {
        Seq::empty()
    } else {
        proof {
            assert(decreases_to!(items => items.subrange(0, items.len() - 1)));
            assert(decreases_to!(items => items[items.len() - 1]));
        }
        json_items(items.drop_last()) + (if items.len() == 1 {
            Seq::empty()
        } else {
            seq![',']
        }) + json_text(items.last())
    }
}

/// The members of a JSON object, comma-separated `key: value` pairs.
pub open spec fn json_entries(entries: Seq<(Seq<char>, SpecValue)>) -> Seq<char>
    decreases entries,
{
    if entries.len() == 0 {
        Seq::empty()
    } else {
        proof {
            assert(decreases_to!(entries => entries.subrange(0, entries.len() - 1)));
            assert(decreases_to!(entries => entries[entries.len() - 1]));
            assert(decreases_to!(
                entries[entries.len() - 1] => entries[entries.len() - 1].1
            ));
        }
        json_entries(entries.drop_last()) + (if entries.len() == 1 {
            Seq::empty()
        } else {
            seq![',']
        }) + quoted(entries.last().0) + seq![':'] + json_text(entries.last().1)
    }
}

/// Append one character's JSON escape.
fn push_escaped(out: &mut String, c: char)
    ensures
        final (out)@ == old(out)@ + escape_char(c),
{
    if c == '"' {
        push_char(out, '\\');
        push_char(out, '"');
    } else if c == '\\' {
        push_char(out, '\\');
        push_char(out, '\\');
    } else if c == '\n' {
        push_char(out, '\\');
        push_char(out, 'n');
    } else if c == '\r' {
        push_char(out, '\\');
        push_char(out, 'r');
    } else if c == '\t' {
        push_char(out, '\\');
        push_char(out, 't');
    } else if (c as u32) < 32 {
        let b = c as u8;
        push_char(out, '\\');
        push_char(out, 'u');
        push_char(out, '0');
        push_char(out, '0');
        let hi = b / 16;
        let lo = b % 16;
        push_char(
            out,
            if hi < 10 {
                (hi + 48) as char
            } else {
                (hi + 87) as char
            },
        );
        push_char(
            out,
            if lo < 10 {
                (lo + 48) as char
            } else {
                (lo + 87) as char
            },
        );
        proof {
            assert(out@ =~= old(out)@ + escape_char(c));
        }
    } else {
        push_char(out, c);
    }
    proof {
        assert(out@ =~= old(out)@ + escape_char(c));
    }
}

/// Append a string as a quoted, escaped JSON string.
fn push_quoted(out: &mut String, s: &str)
    ensures
        final (out)@ == old(out)@ + quoted(s@),
{
    push_char(out, '"');
    let n = s.unicode_len();
    let mut i: usize = 0;
    while i < n
        invariant
            n == s@.len(),
            i <= n,
            out@ == old(out)@ + seq!['"'] + escape_string(s@.subrange(0, i as int)),
        decreases n - i,
    {
        let c = s.get_char(i);
        push_escaped(out, c);
        proof {
            let pre = s@.subrange(0, i as int);
            let next = s@.subrange(0, i as int + 1);
            assert(next.drop_last() =~= pre);
            assert(next.last() == s@[i as int]);
            assert(out@ =~= old(out)@ + seq!['"'] + escape_string(next));
        }
        i = i + 1;
    }
    push_char(out, '"');
    proof {
        assert(s@.subrange(0, n as int) =~= s@);
        assert(out@ =~= old(out)@ + quoted(s@));
    }
}

/// Write a configuration value as JSON text.
pub fn to_json_text(v: &ConfigValue) -> (r: String)
    ensures
        r@ == json_text(v@),
    decreases *v,
{
    match v {
        ConfigValue::Null => {
            let mut out = String::new();
            out.append("null");
            proof {
                reveal_strlit("null");
                assert(out@ =~= json_text(deep(*v)));
            }
            out
        },
        ConfigValue::Bool(b) => {
            let mut out = String::new();
            if *b {
                out.append("true");
            } else {
                out.append("false");
            }
            proof {
                reveal_strlit("true");
                reveal_strlit("false");
                assert(out@ =~= json_text(deep(*v)));
            }
            out
        },
        ConfigValue::Int(n) => int_to_text(*n),
        ConfigValue::Num(s) => s.clone(),
        ConfigValue::Text(s) => {
            let mut out = String::new();
            push_quoted(&mut out, s.as_str());
            proof {
                assert(out@ =~= json_text(deep(*v)));
            }
            out
        },
        ConfigValue::Sequence(items) => {
            let mut out = String::new();
            push_char(&mut out, '[');
            let mut i: usize = 0;
            while i < items.len()
                invariant
                    i <= items@.len(),
                    *v == ConfigValue::Sequence(*items),
                    out@ == seq!['['] + json_items(deep_items(items@).subrange(0, i as int)),
                decreases items@.len() - i,
            {
                proof {
                    assert(decreases_to!(*v => v->Sequence_0));
                    assert(decreases_to!(v->Sequence_0 => v->Sequence_0@));
                    assert(decreases_to!(v->Sequence_0@ => v->Sequence_0@[i as int]));
                }
                if i > 0 {
                    push_char(&mut out, ',');
                }
                let piece = to_json_text(&items[i]);
                out.append(piece.as_str());
                proof {
                    let m = deep_items(items@);
                    let pre = m.subrange(0, i as int);
                    let next = m.subrange(0, i as int + 1);
                    assert(next.drop_last() =~= pre);
                    assert(next.last() == m[i as int]);
                    assert(m[i as int] == deep(items@[i as int]));
                    assert(out@ =~= seq!['['] + json_items(next));
                }
                i = i + 1;
            }
            push_char(&mut out, ']');
            proof {
                let m = deep_items(items@);
                assert(m.subrange(0, items@.len() as int) =~= m);
                assert(out@ =~= json_text(deep(*v)));
            }
            out
        },
        ConfigValue::Tree(entries) => {
            let mut out = String::new();
            push_char(&mut out, '{');
            let mut i: usize = 0;
            while i < entries.len()
                invariant
                    i <= entries@.len(),
                    *v == ConfigValue::Tree(*entries),
                    out@ == seq!['{'] + json_entries(deep_entries(entries@).subrange(0, i as int)),
                decreases entries@.len() - i,
            {
                proof {
                    assert(decreases_to!(*v => v->Tree_0));
                    assert(decreases_to!(v->Tree_0 => v->Tree_0@));
                    assert(decreases_to!(v->Tree_0@ => v->Tree_0@[i as int]));
                    assert(decreases_to!(
                        v->Tree_0@[i as int] => v->Tree_0@[i as int].1
                    ));
                }
                if i > 0 {
                    push_char(&mut out, ',');
                }
                push_quoted(&mut out, entries[i].0.as_str());
                push_char(&mut out, ':');
                let piece = to_json_text(&entries[i].1);
                out.append(piece.as_str());
                proof {
                    let m = deep_entries(entries@);
                    let pre = m.subrange(0, i as int);
                    let next = m.subrange(0, i as int + 1);
                    assert(next.drop_last() =~= pre);
                    assert(next.last() == m[i as int]);
                    assert(m[i as int] == (entries@[i as int].0@, deep(entries@[i as int].1)));
                    assert(out@ =~= seq!['{'] + json_entries(next));
                }
                i = i + 1;
            }
            push_char(&mut out, '}');
            proof {
                let m = deep_entries(entries@);
                assert(m.subrange(0, entries@.len() as int) =~= m);
                assert(out@ =~= json_text(deep(*v)));
            }
            out
        },
    }
}

} // verus!
