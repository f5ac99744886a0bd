//! The text form of a JSON value, and its writer.
use vstd::prelude::*;
use crate::bytes::push_all;
use crate::json::{items_view, lemma_array_view, lemma_object_view, members_view, Json, JsonView, MemberView};

verus! {

/// The hexadecimal digit of `n`, in lower case.
pub open spec fn hex_char(n: nat) -> u8 {
    if n < 10 {
        (48 + n) as u8
    } else {
        (87 + n) as u8
    }
}

/// How one byte of a text is written between quotes: a quote and a
/// backslash behind a backslash, a control byte as a `\u` escape, every
/// other byte as it is.
pub open spec fn escape_byte(b: u8) -> Seq<u8> {
    if b == 0x22 || b == 0x5C {
        seq![0x5Cu8, b]
    } else if b < 0x20 {
        seq![0x5Cu8, 0x75u8, 0x30u8, 0x30u8, hex_char((b / 16) as nat), hex_char((b % 16) as nat)]
    } else {
        seq![b]
    }
}

/// The bytes of `t` from `k` on, escaped.
pub open spec fn escaped(t: Seq<u8>, k: int) -> Seq<u8>
    decreases t.len() - k,
{
    if k < 0 || k >= t.len() {
        Seq::empty()
    } else {
        escape_byte(t[k]) + escaped(t, k + 1)
    }
}

/// The text `t` between quotes.
pub open spec fn quoted(t: Seq<u8>) -> Seq<u8> {
    seq![0x22u8] + escaped(t, 0) + seq![0x22u8]
}

/// The text form of `v`: no white space, members in their order.
pub open spec fn text_of(v: JsonView) -> Seq<u8>
    decreases v,
{
    match v {
        JsonView::Null => seq![0x6Eu8, 0x75u8, 0x6Cu8, 0x6Cu8],
        JsonView::Bool(true) => seq![0x74u8, 0x72u8, 0x75u8, 0x65u8],
        JsonView::Bool(false) => seq![0x66u8, 0x61u8, 0x6Cu8, 0x73u8, 0x65u8],
        JsonView::Number(n) => n,
        JsonView::Text(t) => quoted(t),
        JsonView::Array(items) => seq![0x5Bu8] + elements_text(items, 0),
        JsonView::Object(members) => seq![0x7Bu8] + members_text(members, 0),
    }
}

/// The items of an array from `k` on, each but the first behind a comma,
/// and the closing bracket.
pub open spec fn elements_text(items: Seq<JsonView>, k: int) -> Seq<u8>
    decreases items, items.len() - k,
{
    if k < 0 || k >= items.len() {
        seq![0x5Du8]
    } else {
        (if k > 0 {
            seq![0x2Cu8]
        } else {
            Seq::empty()
        }) + text_of(items[k]) + elements_text(items, k + 1)
    }
}

/// The members of an object from `k` on, each but the first behind a comma,
/// and the closing brace.
pub open spec fn members_text(members: Seq<MemberView>, k: int) -> Seq<u8>
    decreases members, members.len() - k,
{
    if k < 0 || k >= members.len() {
        seq![0x7Du8]
    } else {
        (if k > 0 {
            seq![0x2Cu8]
        } else {
            Seq::empty()
        }) + quoted(members[k].key) + seq![0x3Au8] + text_of(members[k].value) + members_text(members, k + 1)
    }
}

/// The hexadecimal digit of `n`.
fn hex_digit(n: u8) -> (r: u8)
    requires
        n < 16,
    ensures
        r == hex_char(n as nat),
{
    if n < 10 {
        48 + n
    } else {
        87 + n
    }
}

/// Appends `t` between quotes.
pub fn write_quoted(out: &mut Vec<u8>, t: &Vec<u8>)
    ensures
        final(out)@ == old(out)@ + quoted(t@),
{
    out.push(0x22);
    let mut k: usize = 0;
    while k < t.len()
        invariant
            k <= t.len(),
            out@ + escaped(t@, k as int) == old(out)@ + seq![0x22u8] + escaped(t@, 0),
        decreases t.len() - k,
    {
        let b = t[k];
        let ghost before = out@;
        if b == 0x22 || b == 0x5C {
            out.push(0x5C);
            out.push(b);
        } else if b < 0x20 {
            out.push(0x5C);
            out.push(0x75);
            out.push(0x30);
            out.push(0x30);
            out.push(hex_digit(b / 16));
            out.push(hex_digit(b % 16));
        } else {
            out.push(b);
        }
        assert(out@ == before + escape_byte(b));
        assert(out@ + escaped(t@, k + 1) == before + escaped(t@, k as int));
        k += 1;
    }
    assert(escaped(t@, t.len() as int) == Seq::<u8>::empty());
    assert(out@ == old(out)@ + seq![0x22u8] + escaped(t@, 0));
    out.push(0x22);
    assert(out@ == old(out)@ + quoted(t@));
}

/// Appends the text form of `v`.
pub fn write_json(out: &mut Vec<u8>, v: &Json)
    ensures
        final(out)@ == old(out)@ + text_of(v@),
    decreases v,
{
    match v {
        Json::Null => {
            out.push(0x6E);
            out.push(0x75);
            out.push(0x6C);
            out.push(0x6C);
            assert(out@ == old(out)@ + text_of(v@));
        },
        Json::Bool(b) => {
            if *b {
                out.push(0x74);
                out.push(0x72);
                out.push(0x75);
                out.push(0x65);
            } else {
                out.push(0x66);
                out.push(0x61);
                out.push(0x6C);
                out.push(0x73);
                out.push(0x65);
            }
            assert(out@ == old(out)@ + text_of(v@));
        },
        Json::Number(n) => {
            push_all(out, n);
        },
        Json::Text(t) => {
            write_quoted(out, t);
        },
        Json::Array(items) => {
            let ghost iv = items_view(items@);
            proof {
                lemma_array_view(*items);
            }
            out.push(0x5B);
            let mut k: usize = 0;
            while k < items.len()
                invariant
                    k <= items.len(),
                    iv == items_view(items@),
                    *v == Json::Array(*items),
                    out@ + elements_text(iv, k as int) == old(out)@ + seq![0x5Bu8] + elements_text(iv, 0),
                decreases items.len() - k,
            {
                let ghost before = out@;
                if k > 0 {
                    out.push(0x2C);
                }
                let ghost mid = out@;
                assert(decreases_to!(*v => v->Array_0));
                assert(decreases_to!(*items => items@));
                assert(decreases_to!(items@ => items@[k as int]));
                write_json(out, &items[k]);
                assert(iv[k as int] == items[k as int]@);
                assert(out@ == mid + text_of(iv[k as int]));
                assert(out@ + elements_text(iv, k + 1) == before + elements_text(iv, k as int));
                k += 1;
            }
            assert(elements_text(iv, items.len() as int) == seq![0x5Du8]);
            let ghost pre = out@;
            out.push(0x5D);
            assert(out@ == pre + seq![0x5Du8]);
            assert(out@ == old(out)@ + seq![0x5Bu8] + elements_text(iv, 0));
            assert(out@ == old(out)@ + (seq![0x5Bu8] + elements_text(iv, 0)));
            assert(v@ == JsonView::Array(iv));
        },
        Json::Object(members) => {
            let ghost mv = members_view(members@);
            proof {
                lemma_object_view(*members);
            }
            out.push(0x7B);
            let mut k: usize = 0;
            while k < members.len()
                invariant
                    k <= members.len(),
                    mv == members_view(members@),
                    *v == Json::Object(*members),
                    out@ + members_text(mv, k as int) == old(out)@ + seq![0x7Bu8] + members_text(mv, 0),
                decreases members.len() - k,
            {
                let ghost before = out@;
                if k > 0 {
                    out.push(0x2C);
                }
                let ghost mid = out@;
                assert(decreases_to!(*v => v->Object_0));
                assert(decreases_to!(*members => members@));
                assert(decreases_to!(members@ => members@[k as int]));
                assert(decreases_to!(members@[k as int] => members@[k as int].value));
                write_quoted(out, &members[k].key);
                out.push(0x3A);
                write_json(out, &members[k].value);
                assert(mv[k as int] == members[k as int]@);
                assert(out@ == mid + quoted(mv[k as int].key) + seq![0x3Au8] + text_of(mv[k as int].value));
                assert(out@ + members_text(mv, k + 1) == before + members_text(mv, k as int));
                k += 1;
            }
            assert(members_text(mv, members.len() as int) == seq![0x7Du8]);
            let ghost pre = out@;
            out.push(0x7D);
            assert(out@ == pre + seq![0x7Du8]);
            assert(out@ == old(out)@ + seq![0x7Bu8] + members_text(mv, 0));
            assert(out@ == old(out)@ + (seq![0x7Bu8] + members_text(mv, 0)));
            assert(v@ == JsonView::Object(mv));
        },
    }
}

} // verus!
