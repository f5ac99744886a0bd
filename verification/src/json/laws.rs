//! What holds of the reader and the writer together: a text that was
//! written is read back as the value it was written from.
use vstd::prelude::*;
use crate::bytes::is_digit;
use crate::json::lex::{
    hex4, hex_value, is_number, is_number_byte, is_space, lemma_number_bytes, number_end, skip_spaces,
    unescape, unicode_escape, utf8,
};
use crate::json::parse::{parse_document, parse_elements, parse_members, parse_value};
use crate::json::text::{elements_text, escape_byte, escaped, hex_char, members_text, quoted, text_of};
use crate::json::{well_formed, JsonView, MemberView, MAX_DEPTH};

verus! {

/// Whether the bytes `x` stand in `s` at `pos`.
pub open spec fn has_at(s: Seq<u8>, pos: int, x: Seq<u8>) -> bool {
    0 <= pos && pos + x.len() <= s.len() && s.subrange(pos, pos + x.len()) == x
}

/// Whether a numeral that ends before `pos` ends there: the text ends, or
/// the next byte cannot continue a numeral.
pub open spec fn delimited(s: Seq<u8>, pos: int) -> bool {
    pos == s.len() || (0 <= pos < s.len() && !is_number_byte(s[pos]))
}

/// Whether a value's text can start with `b`.
pub open spec fn is_value_start(b: u8) -> bool {
    b == 0x6E || b == 0x74 || b == 0x66 || b == 0x22 || b == 0x5B || b == 0x7B || b == 0x2D || is_digit(b)
}

proof fn lemma_has_at_byte(s: Seq<u8>, pos: int, x: Seq<u8>, j: int)
    requires
        has_at(s, pos, x),
        0 <= j < x.len(),
    ensures
        s[pos + j] == x[j],
{
    assert(s.subrange(pos, pos + x.len())[j] == s[pos + j]);
}

proof fn lemma_has_at_split(s: Seq<u8>, pos: int, a: Seq<u8>, b: Seq<u8>)
    requires
        has_at(s, pos, a + b),
    ensures
        has_at(s, pos, a),
        has_at(s, pos + a.len(), b),
{
    let x = a + b;
    assert(s.subrange(pos, pos + a.len()) =~= x.subrange(0, a.len() as int));
    assert(x.subrange(0, a.len() as int) =~= a);
    assert(s.subrange(pos + a.len(), pos + a.len() + b.len()) =~= x.subrange(
        a.len() as int,
        x.len() as int,
    ));
    assert(x.subrange(a.len() as int, x.len() as int) =~= b);
}

/// The text of a value is not empty and starts as a value starts.
pub proof fn lemma_text_starts(v: JsonView, depth: nat)
    requires
        well_formed(v, depth),
    ensures
        text_of(v).len() > 0,
        is_value_start(text_of(v)[0]),
{
    match v {
        JsonView::Number(n) => {
            lemma_number_bytes(n);
        },
        JsonView::Bool(b) => {
            if b {
            } else {
            }
        },
        _ => {},
    }
}

/// White space that reaches to the end of the text is skipped whole.
proof fn lemma_skip_to_end(s: Seq<u8>, pos: int)
    requires
        0 <= pos <= s.len(),
        forall|i: int| pos <= i < s.len() ==> is_space(#[trigger] s[i]),
    ensures
        skip_spaces(s, pos) == s.len(),
    decreases s.len() - pos,
{
    if pos < s.len() {
        lemma_skip_to_end(s, pos + 1);
    }
}

/// A numeral that stands in a text and ends there is the longest run of
/// numeral bytes from its start.
proof fn lemma_number_run(s: Seq<u8>, pos: int, n: Seq<u8>, k: int)
    requires
        has_at(s, pos, n),
        0 <= k <= n.len(),
        forall|i: int| 0 <= i < n.len() ==> is_number_byte(#[trigger] n[i]),
        delimited(s, pos + n.len()),
    ensures
        number_end(s, pos + k) == pos + n.len(),
    decreases n.len() - k,
{
    if k < n.len() {
        lemma_has_at_byte(s, pos, n, k);
        lemma_number_run(s, pos, n, k + 1);
    }
}

/// The hexadecimal digit of a number below sixteen denotes that number.
proof fn lemma_hex_char(n: nat)
    requires
        n < 16,
    ensures
        hex_value(hex_char(n)) == Some(n),
{
}

/// Reading the escaped form of a text from its byte `k` on, after the
/// bytes before `k`, gives the text.
proof fn lemma_unescape_escaped(s: Seq<u8>, pos: int, t: Seq<u8>, k: int)
    requires
        0 <= k <= t.len(),
        has_at(s, pos, escaped(t, k) + seq![0x22u8]),
    ensures
        unescape(s, pos, t.subrange(0, k)) == Some((t, pos + escaped(t, k).len() + 1)),
    decreases t.len() - k,
{
    let acc = t.subrange(0, k);
    if k == t.len() {
        assert(escaped(t, k) =~= Seq::<u8>::empty());
        lemma_has_at_byte(s, pos, escaped(t, k) + seq![0x22u8], 0);
        assert(acc =~= t);
    } else {
        let b = t[k];
        let e = escape_byte(b);
        let rest = escaped(t, k + 1) + seq![0x22u8];
        assert(escaped(t, k) + seq![0x22u8] =~= e + rest);
        lemma_has_at_split(s, pos, e, rest);
        lemma_unescape_escaped(s, pos + e.len(), t, k + 1);
        assert(t.subrange(0, k + 1) =~= acc.push(b));
        lemma_has_at_byte(s, pos, e, 0);
        if b == 0x22 || b == 0x5C {
            lemma_has_at_byte(s, pos, e, 1);
        } else if b < 0x20 {
            lemma_has_at_byte(s, pos, e, 1);
            lemma_has_at_byte(s, pos, e, 2);
            lemma_has_at_byte(s, pos, e, 3);
            lemma_has_at_byte(s, pos, e, 4);
            lemma_has_at_byte(s, pos, e, 5);
            lemma_hex_char((b / 16) as nat);
            lemma_hex_char((b % 16) as nat);
            assert(hex4(s, pos + 2) == Some(b as nat));
            assert(utf8(b as nat) =~= seq![b]);
            assert(unicode_escape(s, pos) == Some((seq![b], pos + 6)));
            assert(acc + seq![b] =~= acc.push(b));
        } else {
        }
    }
}

/// A text between quotes that stands at `pos` is read as that text.
proof fn lemma_quoted(s: Seq<u8>, pos: int, t: Seq<u8>)
    requires
        has_at(s, pos, quoted(t)),
    ensures
        s[pos] == 0x22,
        unescape(s, pos + 1, Seq::empty()) == Some((t, pos + quoted(t).len())),
{
    let q = seq![0x22u8];
    assert(quoted(t) =~= q + (escaped(t, 0) + q));
    lemma_has_at_split(s, pos, q, escaped(t, 0) + q);
    lemma_has_at_byte(s, pos, q, 0);
    lemma_unescape_escaped(s, pos + 1, t, 0);
    assert(t.subrange(0, 0) =~= Seq::<u8>::empty());
}

/// The text of a value that stands at `pos`, with nothing behind it that
/// could continue a numeral, is read as that value.
proof fn lemma_value(s: Seq<u8>, pos: int, v: JsonView, depth: nat)
    requires
        has_at(s, pos, text_of(v)),
        well_formed(v, depth),
        delimited(s, pos + text_of(v).len()),
    ensures
        parse_value(s, pos, depth) == Some((v, pos + text_of(v).len())),
    decreases v,
{
    let x = text_of(v);
    lemma_text_starts(v, depth);
    lemma_has_at_byte(s, pos, x, 0);
    match v {
        JsonView::Null => {
            lemma_has_at_byte(s, pos, x, 1);
            lemma_has_at_byte(s, pos, x, 2);
            lemma_has_at_byte(s, pos, x, 3);
        },
        JsonView::Bool(b) => {
            lemma_has_at_byte(s, pos, x, 1);
            lemma_has_at_byte(s, pos, x, 2);
            lemma_has_at_byte(s, pos, x, 3);
            if !b {
                lemma_has_at_byte(s, pos, x, 4);
            }
        },
        JsonView::Number(n) => {
            lemma_number_bytes(n);
            lemma_number_run(s, pos, n, 0);
        },
        JsonView::Text(t) => {
            lemma_quoted(s, pos, t);
        },
        JsonView::Array(items) => {
            let open = seq![0x5Bu8];
            lemma_has_at_split(s, pos, open, elements_text(items, 0));
            if items.len() == 0 {
                lemma_has_at_byte(s, pos + 1, elements_text(items, 0), 0);
                assert(items =~= Seq::<JsonView>::empty());
            } else {
                let first = text_of(items[0]);
                lemma_text_starts(items[0], (depth - 1) as nat);
                assert(elements_text(items, 0) =~= first + elements_text(items, 1));
                lemma_has_at_split(s, pos + 1, first, elements_text(items, 1));
                lemma_has_at_byte(s, pos + 1, first, 0);
                lemma_elements(s, pos + 1, items, 0, (depth - 1) as nat);
                assert(items.subrange(0, 0) =~= Seq::<JsonView>::empty());
            }
        },
        JsonView::Object(members) => {
            let open = seq![0x7Bu8];
            lemma_has_at_split(s, pos, open, members_text(members, 0));
            if members.len() == 0 {
                lemma_has_at_byte(s, pos + 1, members_text(members, 0), 0);
                assert(members =~= Seq::<MemberView>::empty());
            } else {
                lemma_member_text(members, 0);
                let first = quoted(members[0].key);
                let rest = seq![0x3Au8] + text_of(members[0].value) + members_text(members, 1);
                assert(members_text(members, 0) =~= first + rest);
                lemma_has_at_split(s, pos + 1, first, rest);
                lemma_has_at_byte(s, pos + 1, first, 0);
                lemma_members(s, pos + 1, members, 0, (depth - 1) as nat);
                assert(members.subrange(0, 0) =~= Seq::<MemberView>::empty());
            }
        },
    }
}

/// The text of the items from `k` on, at `k` without its comma.
pub open spec fn items_from(items: Seq<JsonView>, k: int) -> Seq<u8> {
    text_of(items[k]) + elements_text(items, k + 1)
}

/// The text of the members from `k` on, at `k` without its comma.
pub open spec fn members_from(members: Seq<MemberView>, k: int) -> Seq<u8> {
    quoted(members[k].key) + seq![0x3Au8] + text_of(members[k].value) + members_text(members, k + 1)
}

proof fn lemma_member_text(members: Seq<MemberView>, k: int)
    requires
        0 <= k < members.len(),
    ensures
        members_text(members, k) == (if k > 0 {
            seq![0x2Cu8]
        } else {
            Seq::<u8>::empty()
        }) + members_from(members, k),
        members_text(members, k).len() > 0,
        k == 0 ==> members_text(members, k)[0] == 0x22,
        k > 0 ==> members_text(members, k)[0] == 0x2C,
{
    let sep: Seq<u8> = if k > 0 {
        seq![0x2Cu8]
    } else {
        Seq::<u8>::empty()
    };
    assert(members_text(members, k) =~= sep + members_from(members, k));
}

/// What follows an item in the text of an array is a comma or the closing
/// bracket.
proof fn lemma_elements_text_starts(items: Seq<JsonView>, k: int)
    requires
        0 < k <= items.len(),
    ensures
        elements_text(items, k).len() > 0,
        k == items.len() ==> elements_text(items, k) == seq![0x5Du8],
        k < items.len() ==> elements_text(items, k) == seq![0x2Cu8] + items_from(items, k),
{
    if k < items.len() {
        assert(elements_text(items, k) =~= seq![0x2Cu8] + items_from(items, k));
    }
}

/// The items of an array from `k` on, as the writer writes them, are read
/// as those items, after the items before `k`.
proof fn lemma_elements(s: Seq<u8>, pos: int, items: Seq<JsonView>, k: int, depth: nat)
    requires
        0 <= k < items.len(),
        has_at(s, pos, items_from(items, k)),
        forall|i: int| 0 <= i < items.len() ==> well_formed(#[trigger] items[i], depth),
    ensures
        parse_elements(s, pos, depth, items.subrange(0, k)) == Some(
            (items, pos + items_from(items, k).len()),
        ),
    decreases items, items.len() - k,
{
    let x = text_of(items[k]);
    let rest = elements_text(items, k + 1);
    let acc = items.subrange(0, k);
    lemma_has_at_split(s, pos, x, rest);
    lemma_elements_text_starts(items, k + 1);
    lemma_has_at_byte(s, pos + x.len(), rest, 0);
    lemma_text_starts(items[k], depth);
    lemma_value(s, pos, items[k], depth);
    let p = pos + x.len();
    assert(skip_spaces(s, p) == p);
    if k + 1 < items.len() {
        let comma = seq![0x2Cu8];
        let next = items_from(items, k + 1);
        lemma_has_at_split(s, p, comma, next);
        let y = text_of(items[k + 1]);
        lemma_text_starts(items[k + 1], depth);
        lemma_has_at_split(s, p + 1, y, elements_text(items, k + 2));
        lemma_has_at_byte(s, p + 1, y, 0);
        assert(skip_spaces(s, p + 1) == p + 1);
        lemma_elements(s, p + 1, items, k + 1, depth);
        assert(items.subrange(0, k + 1) =~= acc.push(items[k]));
    } else {
        assert(acc.push(items[k]) =~= items);
    }
}

/// The members of an object from `k` on, as the writer writes them, are
/// read as those members, after the members before `k`.
proof fn lemma_members(s: Seq<u8>, pos: int, members: Seq<MemberView>, k: int, depth: nat)
    requires
        0 <= k < members.len(),
        has_at(s, pos, members_from(members, k)),
        forall|i: int| 0 <= i < members.len() ==> well_formed((#[trigger] members[i]).value, depth),
    ensures
        parse_members(s, pos, depth, members.subrange(0, k)) == Some(
            (members, pos + members_from(members, k).len()),
        ),
    decreases members, members.len() - k,
{
    let key = quoted(members[k].key);
    let colon = seq![0x3Au8];
    let x = text_of(members[k].value);
    let rest = members_text(members, k + 1);
    let acc = members.subrange(0, k);
    assert(members_from(members, k) =~= key + (colon + (x + rest)));
    lemma_has_at_split(s, pos, key, colon + (x + rest));
    lemma_quoted(s, pos, members[k].key);
    let c = pos + key.len();
    lemma_has_at_split(s, c, colon, x + rest);
    lemma_has_at_byte(s, c, colon, 0);
    assert(skip_spaces(s, c) == c);
    let at = c + 1;
    lemma_has_at_split(s, at, x, rest);
    lemma_text_starts(members[k].value, depth);
    lemma_has_at_byte(s, at, x, 0);
    assert(skip_spaces(s, at) == at);
    if k + 1 < members.len() {
        lemma_member_text(members, k + 1);
    }
    lemma_has_at_byte(s, at + x.len(), rest, 0);
    assert(decreases_to!(members => members[k]));
    assert(decreases_to!(members[k] => members[k].value));
    lemma_value(s, at, members[k].value, depth);
    let p = at + x.len();
    assert(skip_spaces(s, p) == p);
    let member = members[k];
    if k + 1 < members.len() {
        let comma = seq![0x2Cu8];
        let next = members_from(members, k + 1);
        lemma_has_at_split(s, p, comma, next);
        let key2 = quoted(members[k + 1].key);
        assert(next =~= key2 + (colon + text_of(members[k + 1].value) + members_text(members, k + 2)));
        lemma_has_at_split(
            s,
            p + 1,
            key2,
            colon + text_of(members[k + 1].value) + members_text(members, k + 2),
        );
        lemma_has_at_byte(s, p + 1, key2, 0);
        assert(skip_spaces(s, p + 1) == p + 1);
        lemma_members(s, p + 1, members, k + 1, depth);
        assert(members.subrange(0, k + 1) =~= acc.push(member));
    } else {
        assert(acc.push(member) =~= members);
    }
}

/// Reading what was written gives back the value: the text of a
/// well-formed value, followed by any white space, denotes that value.
pub proof fn lemma_parse_text(v: JsonView, tail: Seq<u8>)
    requires
        well_formed(v, MAX_DEPTH as nat),
        forall|i: int| 0 <= i < tail.len() ==> is_space(#[trigger] tail[i]),
    ensures
        parse_document(text_of(v) + tail) == Some(v),
{
    let x = text_of(v);
    let s = x + tail;
    lemma_text_starts(v, MAX_DEPTH as nat);
    assert(s.subrange(0, x.len() as int) =~= x);
    assert(s[0] == x[0]);
    assert(skip_spaces(s, 0) == 0);
    if tail.len() > 0 {
        assert(s[x.len() as int] == tail[0]);
    }
    lemma_value(s, 0, v, MAX_DEPTH as nat);
    assert forall|i: int| x.len() <= i < s.len() implies is_space(#[trigger] s[i]) by {
        assert(s[i] == tail[i - x.len()]);
    }
    lemma_skip_to_end(s, x.len() as int);
}

} // verus!
