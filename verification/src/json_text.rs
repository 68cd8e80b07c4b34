//! JSON values written as JSON text.
use vstd::prelude::*;
use crate::json::{JsonNumber, JsonValue, JsonV, NumV, jv, jv_seq, jv_entries, lemma_jv_seq, lemma_jv_entries};
use crate::text::{dec, int_dec, hex_digit, hex_char, push_char, u64_to_dec, i128_to_dec};

verus! {

/// How one character of a string is written inside the quotes: `"` and `\`
/// behind a backslash, other control characters as `\u00XX`.
pub open spec fn esc_char_v(c: char) -> Seq<char> {
    if c == '"' {
        seq!['\\', '"']
    } else if c == '\\' {
        seq!['\\', '\\']
    } else if (c as u32) < 32 {
        seq!['\\', 'u', '0', '0', hex_digit(((c as u32) / 16) as nat), hex_digit(((c as u32) % 16) as nat)]
    } else {
        seq![c]
    }
}

pub open spec fn esc_v(s: Seq<char>) -> Seq<char>
    decreases s.len(),
{
    if s.len() == 0 {
        Seq::empty()
    } else {
        esc_v(s.drop_last()) + esc_char_v(s.last())
    }
}

/// A string literal.
pub open spec fn quoted_v(s: Seq<char>) -> Seq<char> {
    seq!['"'] + esc_v(s) + seq!['"']
}

pub open spec fn num_text_v(n: NumV) -> Seq<char> {
    match n {
        NumV::PosInt(u) => dec(u as nat),
        NumV::NegInt(i) => int_dec(i as int),
        NumV::Float(t) => t,
    }
}

/// The JSON text of a value, without spaces, entries in their order.
pub open spec fn json_text_v(v: JsonV) -> Seq<char>
    decreases v,
{
    match v {
        JsonV::Null => seq!['n', 'u', 'l', 'l'],
        JsonV::Bool(b) => if b {
            seq!['t', 'r', 'u', 'e']
        } else {
            seq!['f', 'a', 'l', 's', 'e']
        },
        JsonV::Number(n) => num_text_v(n),
        JsonV::Str(s) => quoted_v(s),
        JsonV::Array(items) => seq!['['] + items_text_v(items) + seq![']'],
        JsonV::Object(es) => seq!['{'] + entries_text_v(es) + seq!['}'],
    }
}

/// Array items, separated by commas.
pub open spec fn items_text_v(s: Seq<JsonV>) -> Seq<char>
    decreases s,
{
    if s.len() == 0 {
        Seq::empty()
    } else if s.len() == 1 {
        json_text_v(s[0])
    } else {
        items_text_v(s.drop_last()) + seq![','] + json_text_v(s.last())
    }
}

/// Object entries `"key":value`, separated by commas.
pub open spec fn entries_text_v(s: Seq<(Seq<char>, JsonV)>) -> Seq<char>
    decreases s,
{
    if s.len() == 0 {
        Seq::empty()
    } else if s.len() == 1 {
        quoted_v(s[0].0) + seq![':'] + json_text_v(s[0].1)
    } else {
        entries_text_v(s.drop_last()) + seq![','] + quoted_v(s.last().0) + seq![':'] + json_text_v(s.last().1)
    }
}

fn push_str(out: &mut String, s: &str)
    ensures
        final(out)@ == old(out)@ + s@,
{
    out.append(s);
}

fn write_escaped(out: &mut String, s: &str)
    ensures
        final(out)@ == old(out)@ + quoted_v(s@),
{
    let ghost start = out@;
    push_char(out, '"');
    let n = s.unicode_len();
    let mut i: usize = 0;
    proof {
        assert(s@.take(0) =~= Seq::<char>::empty());
        assert(esc_v(Seq::<char>::empty()) =~= Seq::<char>::empty());
    }
    while i < n
        invariant
            n == s@.len(),
            i <= n,
            out@ == start + seq!['"'] + esc_v(s@.take(i as int)),
        decreases n - i,
    {
        let c = s.get_char(i);
        proof {
            assert(s@.take(i + 1).drop_last() =~= s@.take(i as int));
            assert(s@.take(i + 1).last() == c);
        }
        let code: u32 = c as u32;
        if c == '"' {
            push_char(out, '\\');
            push_char(out, '"');
        } else if c == '\\' {
            push_char(out, '\\');
            push_char(out, '\\');
        } else if code < 32 {
            push_char(out, '\\');
            push_char(out, 'u');
            push_char(out, '0');
            push_char(out, '0');
            push_char(out, hex_char((code / 16) as u8));
            push_char(out, hex_char((code % 16) as u8));
        } else {
            push_char(out, c);
        }
        proof {
            assert(out@ =~= start + seq!['"'] + esc_v(s@.take(i + 1)));
        }
        i = i + 1;
    }
    push_char(out, '"');
    proof {
        assert(s@.take(n as int) =~= s@);
        assert(out@ =~= old(out)@ + quoted_v(s@));
    }
}

/// Appends the JSON text of `v`.
pub fn write_json(out: &mut String, v: &JsonValue)
    ensures
        final(out)@ == old(out)@ + json_text_v(v@),
    decreases v,
{
    let ghost start = out@;
    match v {
        JsonValue::Null => {
            push_str(out, "null");
            proof {
                reveal_strlit("null");
                assert(out@ =~= start + json_text_v(v@));
            }
        },
        JsonValue::Bool(b) => {
            if *b {
                push_str(out, "true");
                proof {
                    reveal_strlit("true");
                    assert(out@ =~= start + json_text_v(v@));
                }
            } else {
                push_str(out, "false");
                proof {
                    reveal_strlit("false");
                    assert(out@ =~= start + json_text_v(v@));
                }
            }
        },
        JsonValue::Number(n) => {
            match n {
                JsonNumber::PosInt(u) => {
                    let t = u64_to_dec(*u);
                    push_str(out, t.as_str());
                },
                JsonNumber::NegInt(i) => {
                    let t = i128_to_dec(*i as i128);
                    push_str(out, t.as_str());
                },
                JsonNumber::Float(t) => {
                    push_str(out, t.as_str());
                },
            }
        },
        JsonValue::String(s) => {
            write_escaped(out, s.as_str());
        },
        JsonValue::Array(items) => {
            push_char(out, '[');
            let ghost sv = jv_seq(items@);
            proof {
                lemma_jv_seq(items@);
                assert(sv.take(0) =~= Seq::<JsonV>::empty());
            }
            let mut i: usize = 0;
            while i < items.len()
                invariant
                    i <= items.len(),
                    *v == JsonValue::Array(*items),
                    sv == jv_seq(items@),
                    sv.len() == items@.len(),
                    forall|k: int| 0 <= k < items@.len() ==> #[trigger] sv[k] == jv(items@[k]),
                    out@ == start + seq!['['] + items_text_v(sv.take(i as int)),
                decreases items.len() - i,
            {
                proof {
                    broadcast use vstd::std_specs::vec::axiom_vec_decreases_to_view;
                    assert(decreases_to!(*v => (*v)->Array_0));
                    assert(decreases_to!(*items => items@));
                    assert(decreases_to!(items@ => items@[i as int]));
                    assert(sv.take(i + 1).drop_last() =~= sv.take(i as int));
                    assert(sv.take(i + 1).last() == jv(items@[i as int]));
                }
                if i > 0 {
                    push_char(out, ',');
                }
                write_json(out, &items[i]);
                proof {
                    if i == 0 {
                        assert(sv.take(1)[0] == jv(items@[0]));
                    }
                    assert(out@ =~= start + seq!['['] + items_text_v(sv.take(i + 1)));
                }
                i = i + 1;
            }
            push_char(out, ']');
            proof {
                assert(sv.take(items.len() as int) =~= sv);
                assert(out@ =~= start + json_text_v(v@));
            }
        },
        JsonValue::Object(entries) => {
            push_char(out, '{');
            let ghost sv = jv_entries(entries@);
            proof {
                lemma_jv_entries(entries@);
                assert(sv.take(0) =~= Seq::<(Seq<char>, JsonV)>::empty());
            }
            let mut i: usize = 0;
            while i < entries.len()
                invariant
                    i <= entries.len(),
                    *v == JsonValue::Object(*entries),
                    sv == jv_entries(entries@),
                    sv.len() == entries@.len(),
                    forall|k: int|
                        0 <= k < entries@.len() ==> #[trigger] sv[k] == (entries@[k].0@, jv(entries@[k].1)),
                    out@ == start + seq!['{'] + entries_text_v(sv.take(i as int)),
                decreases entries.len() - i,
            {
                proof {
                    broadcast use vstd::std_specs::vec::axiom_vec_decreases_to_view;
                    assert(decreases_to!(*v => (*v)->Object_0));
                    assert(decreases_to!(*entries => entries@));
                    assert(decreases_to!(entries@ => entries@[i as int]));
                    assert(decreases_to!(entries@[i as int] => entries@[i as int].1));
                    assert(sv.take(i + 1).drop_last() =~= sv.take(i as int));
                    assert(sv.take(i + 1).last() == sv[i as int]);
                }
                if i > 0 {
                    push_char(out, ',');
                }
                write_escaped(out, entries[i].0.as_str());
                push_char(out, ':');
                write_json(out, &entries[i].1);
                proof {
                    if i == 0 {
                        assert(sv.take(1)[0] == sv[0]);
                    }
                    assert(out@ =~= start + seq!['{'] + entries_text_v(sv.take(i + 1)));
                }
                i = i + 1;
            }
            push_char(out, '}');
            proof {
                assert(sv.take(entries.len() as int) =~= sv);
                assert(out@ =~= start + json_text_v(v@));
            }
        },
    }
}

/// The JSON text of a value.
pub fn json_text(v: &JsonValue) -> (s: String)
    ensures
        s@ == json_text_v(v@),
{
    let mut s = String::new();
    write_json(&mut s, v);
    proof {
        assert(s@ =~= json_text_v(v@));
    }
    s
}

} // verus!
