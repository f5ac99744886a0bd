//! The reader of JSON texts.
use vstd::prelude::*;
use crate::bytes::{copy_range, is_digit};
use crate::json::lex::{
    check_number, is_number, number_end, pass_number, pass_spaces, read_text, skip_spaces, unescape,
};
use crate::json::{
    items_view, lemma_array_view, lemma_object_view, members_view, well_formed, Json, JsonView, Member,
    MemberView, MAX_DEPTH,
};

verus! {

/// Whether the word `true` stands at `pos`.
pub open spec fn true_at(s: Seq<u8>, pos: int) -> bool {
    0 <= pos && pos + 4 <= s.len() && s[pos] == 0x74 && s[pos + 1] == 0x72 && s[pos + 2] == 0x75 && s[pos
        + 3] == 0x65
}

/// Whether the word `false` stands at `pos`.
pub open spec fn false_at(s: Seq<u8>, pos: int) -> bool {
    0 <= pos && pos + 5 <= s.len() && s[pos] == 0x66 && s[pos + 1] == 0x61 && s[pos + 2] == 0x6C && s[pos
        + 3] == 0x73 && s[pos + 4] == 0x65
}

/// Whether the word `null` stands at `pos`.
pub open spec fn null_at(s: Seq<u8>, pos: int) -> bool {
    0 <= pos && pos + 4 <= s.len() && s[pos] == 0x6E && s[pos + 1] == 0x75 && s[pos + 2] == 0x6C && s[pos
        + 3] == 0x6C
}

/// The value that starts at `pos`, and the position after it. Arrays and
/// objects may nest `depth` deep.
pub open spec fn parse_value(s: Seq<u8>, pos: int, depth: nat) -> Option<(JsonView, int)>
    decreases depth, s.len() - pos, 0nat,
{
    if pos < 0 || pos >= s.len() {
        None
    } else if s[pos] == 0x22 {
        match unescape(s, pos + 1, Seq::empty()) {
            Some((t, next)) => Some((JsonView::Text(t), next)),
            None => None,
        }
    } else if s[pos] == 0x5B {
        let p = skip_spaces(s, pos + 1);
        if depth == 0 {
            None
        } else if 0 <= p < s.len() && s[p] == 0x5D {
            Some((JsonView::Array(Seq::empty()), p + 1))
        } else {
            match parse_elements(s, p, (depth - 1) as nat, Seq::empty()) {
                Some((items, next)) => Some((JsonView::Array(items), next)),
                None => None,
            }
        }
    } else if s[pos] == 0x7B {
        let p = skip_spaces(s, pos + 1);
        if depth == 0 {
            None
        } else if 0 <= p < s.len() && s[p] == 0x7D {
            Some((JsonView::Object(Seq::empty()), p + 1))
        } else {
            match parse_members(s, p, (depth - 1) as nat, Seq::empty()) {
                Some((members, next)) => Some((JsonView::Object(members), next)),
                None => None,
            }
        }
    } else if true_at(s, pos) {
        Some((JsonView::Bool(true), pos + 4))
    } else if false_at(s, pos) {
        Some((JsonView::Bool(false), pos + 5))
    } else if null_at(s, pos) {
        Some((JsonView::Null, pos + 4))
    } else if s[pos] == 0x2D || is_digit(s[pos]) {
        let end = number_end(s, pos);
        let numeral = s.subrange(pos, end);
        if pos < end <= s.len() && is_number(numeral) {
            Some((JsonView::Number(numeral), end))
        } else {
            None
        }
    } else {
        None
    }
}

/// The items of an array from the one that starts at `pos` on, after the
/// items `acc`, and the position after the closing bracket.
pub open spec fn parse_elements(s: Seq<u8>, pos: int, depth: nat, acc: Seq<JsonView>) -> Option<
    (Seq<JsonView>, int),
>
    decreases depth, s.len() - pos, 1nat,
{
    match parse_value(s, pos, depth) {
        None => None,
        Some((v, after)) => {
            let p = skip_spaces(s, after);
            if p <= pos || p >= s.len() {
                None
            } else if s[p] == 0x2C {
                let q = skip_spaces(s, p + 1);
                if q <= pos || q > s.len() {
                    None
                } else {
                    parse_elements(s, q, depth, acc.push(v))
                }
            } else if s[p] == 0x5D {
                Some((acc.push(v), p + 1))
            } else {
                None
            }
        },
    }
}

/// The members of an object from the one whose key starts at `pos` on,
/// after the members `acc`, and the position after the closing brace.
pub open spec fn parse_members(s: Seq<u8>, pos: int, depth: nat, acc: Seq<MemberView>) -> Option<
    (Seq<MemberView>, int),
>
    decreases depth, s.len() - pos, 1nat,
{
    if pos < 0 || pos >= s.len() || s[pos] != 0x22 {
        None
    } else {
        match unescape(s, pos + 1, Seq::empty()) {
            None => None,
            Some((key, after_key)) => {
                let c = skip_spaces(s, after_key);
                if c < 0 || c >= s.len() || s[c] != 0x3A {
                    None
                } else {
                    let at = skip_spaces(s, c + 1);
                    if at <= pos || at > s.len() {
                        None
                    } else {
                        match parse_value(s, at, depth) {
                            None => None,
                            Some((v, after)) => {
                                let p = skip_spaces(s, after);
                                let member = MemberView { key, value: v };
                                if p <= pos || p >= s.len() {
                                    None
                                } else if s[p] == 0x2C {
                                    let q = skip_spaces(s, p + 1);
                                    if q <= pos || q > s.len() {
                                        None
                                    } else {
                                        parse_members(s, q, depth, acc.push(member))
                                    }
                                } else if s[p] == 0x7D {
                                    Some((acc.push(member), p + 1))
                                } else {
                                    None
                                }
                            },
                        }
                    }
                }
            },
        }
    }
}

/// The value that a JSON text denotes: one value, with white space before
/// and after it and nothing else.
pub open spec fn parse_document(s: Seq<u8>) -> Option<JsonView> {
    match parse_value(s, skip_spaces(s, 0), MAX_DEPTH as nat) {
        Some((v, after)) => if skip_spaces(s, after) == s.len() {
            Some(v)
        } else {
            None
        },
        None => None,
    }
}

/// Reads the value that starts at `pos`.
pub fn read_value(s: &Vec<u8>, pos: usize, depth: usize) -> (r: Option<(Json, usize)>)
    requires
        pos <= s.len(),
    ensures
        match r {
            Some((v, next)) => parse_value(s@, pos as int, depth as nat) == Some((v@, next as int)) && pos
                < next <= s.len() && well_formed(v@, depth as nat),
            None => parse_value(s@, pos as int, depth as nat) is None,
        },
    decreases depth, 0nat,
{
    let n = s.len();
    if pos >= n {
        return None;
    }
    let b = s[pos];
    if b == 0x22 {
        match read_text(s, pos + 1) {
            Some((t, next)) => Some((Json::Text(t), next)),
            None => None,
        }
    } else if b == 0x5B {
        let p = pass_spaces(s, pos + 1);
        if depth == 0 {
            None
        } else if p < n && s[p] == 0x5D {
            let items: Vec<Json> = Vec::new();
            proof {
                lemma_array_view(items);
                assert(items_view(items@) =~= Seq::<JsonView>::empty());
            }
            Some((Json::Array(items), p + 1))
        } else {
            match read_elements(s, p, depth - 1) {
                Some((items, next)) => {
                    proof {
                        lemma_array_view(items);
                    }
                    Some((Json::Array(items), next))
                },
                None => None,
            }
        }
    } else if b == 0x7B {
        let p = pass_spaces(s, pos + 1);
        if depth == 0 {
            None
        } else if p < n && s[p] == 0x7D {
            let members: Vec<Member> = Vec::new();
            proof {
                lemma_object_view(members);
                assert(members_view(members@) =~= Seq::<MemberView>::empty());
            }
            Some((Json::Object(members), p + 1))
        } else {
            match read_members(s, p, depth - 1) {
                Some((members, next)) => {
                    proof {
                        lemma_object_view(members);
                    }
                    Some((Json::Object(members), next))
                },
                None => None,
            }
        }
    } else if n - pos >= 4 && b == 0x74 && s[pos + 1] == 0x72 && s[pos + 2] == 0x75 && s[pos + 3] == 0x65 {
        Some((Json::Bool(true), pos + 4))
    } else if n - pos >= 5 && b == 0x66 && s[pos + 1] == 0x61 && s[pos + 2] == 0x6C && s[pos + 3] == 0x73
        && s[pos + 4] == 0x65 {
        Some((Json::Bool(false), pos + 5))
    } else if n - pos >= 4 && b == 0x6E && s[pos + 1] == 0x75 && s[pos + 2] == 0x6C && s[pos + 3] == 0x6C {
        Some((Json::Null, pos + 4))
    } else if b == 0x2D || (48 <= b && b <= 57) {
        let end = pass_number(s, pos);
        if end <= pos {
            return None;
        }
        let numeral = copy_range(s, pos, end);
        if check_number(&numeral) {
            Some((Json::Number(numeral), end))
        } else {
            None
        }
    } else {
        None
    }
}

/// Reads the items of an array from the one that starts at `pos` on.
fn read_elements(s: &Vec<u8>, pos: usize, depth: usize) -> (r: Option<(Vec<Json>, usize)>)
    requires
        pos <= s.len(),
    ensures
        match r {
            Some((items, next)) => parse_elements(s@, pos as int, depth as nat, Seq::empty()) == Some(
                (items_view(items@), next as int),
            ) && pos < next <= s.len() && forall|i: int|
                0 <= i < items.len() ==> well_formed(#[trigger] items_view(items@)[i], depth as nat),
            None => parse_elements(s@, pos as int, depth as nat, Seq::empty()) is None,
        },
    decreases depth, 1nat,
{
    let n = s.len();
    let mut acc: Vec<Json> = Vec::new();
    let mut p = pos;
    assert(items_view(acc@) =~= Seq::<JsonView>::empty());
    loop
        invariant
            n == s.len(),
            pos <= p <= n,
            parse_elements(s@, pos as int, depth as nat, Seq::empty()) == parse_elements(
                s@,
                p as int,
                depth as nat,
                items_view(acc@),
            ),
            forall|i: int| 0 <= i < acc.len() ==> well_formed(#[trigger] items_view(acc@)[i], depth as nat),
        decreases n - p,
    {
        match read_value(s, p, depth) {
            None => {
                return None;
            },
            Some((v, after)) => {
                let q = pass_spaces(s, after);
                if q >= n {
                    return None;
                }
                let ghost before = acc@;
                if s[q] == 0x2C {
                    let next = pass_spaces(s, q + 1);
                    acc.push(v);
                    assert(items_view(acc@) =~= items_view(before).push(v@));
                    p = next;
                } else if s[q] == 0x5D {
                    acc.push(v);
                    assert(items_view(acc@) =~= items_view(before).push(v@));
                    return Some((acc, q + 1));
                } else {
                    return None;
                }
            },
        }
    }
}

/// Reads the members of an object from the one whose key starts at `pos` on.
fn read_members(s: &Vec<u8>, pos: usize, depth: usize) -> (r: Option<(Vec<Member>, usize)>)
    requires
        pos <= s.len(),
    ensures
        match r {
            Some((members, next)) => parse_members(s@, pos as int, depth as nat, Seq::empty()) == Some(
                (members_view(members@), next as int),
            ) && pos < next <= s.len() && forall|i: int|
                0 <= i < members.len() ==> well_formed(
                    (#[trigger] members_view(members@)[i]).value,
                    depth as nat,
                ),
            None => parse_members(s@, pos as int, depth as nat, Seq::empty()) is None,
        },
    decreases depth, 1nat,
{
    let n = s.len();
    let mut acc: Vec<Member> = Vec::new();
    let mut p = pos;
    assert(members_view(acc@) =~= Seq::<MemberView>::empty());
    loop
        invariant
            n == s.len(),
            pos <= p <= n,
            parse_members(s@, pos as int, depth as nat, Seq::empty()) == parse_members(
                s@,
                p as int,
                depth as nat,
                members_view(acc@),
            ),
            forall|i: int|
                0 <= i < acc.len() ==> well_formed((#[trigger] members_view(acc@)[i]).value, depth as nat),
        decreases n - p,
    {
        if p >= n || s[p] != 0x22 {
            return None;
        }
        let (key, after_key) = match read_text(s, p + 1) {
            Some(found) => found,
            None => {
                return None;
            },
        };
        let c = pass_spaces(s, after_key);
        if c >= n || s[c] != 0x3A {
            return None;
        }
        let at = pass_spaces(s, c + 1);
        match read_value(s, at, depth) {
            None => {
                return None;
            },
            Some((v, after)) => {
                let q = pass_spaces(s, after);
                if q >= n {
                    return None;
                }
                let ghost before = acc@;
                let ghost member = MemberView { key: key@, value: v@ };
                if s[q] == 0x2C {
                    let next = pass_spaces(s, q + 1);
                    acc.push(Member { key, value: v });
                    assert(members_view(acc@) =~= members_view(before).push(member));
                    p = next;
                } else if s[q] == 0x7D {
                    acc.push(Member { key, value: v });
                    assert(members_view(acc@) =~= members_view(before).push(member));
                    return Some((acc, q + 1));
                } else {
                    return None;
                }
            },
        }
    }
}

/// Reads a JSON text. The result is the value the text denotes, if it
/// denotes one.
pub fn parse(s: &Vec<u8>) -> (r: Option<Json>)
    ensures
        match r {
            Some(v) => parse_document(s@) == Some(v@) && well_formed(v@, MAX_DEPTH as nat),
            None => parse_document(s@) is None,
        },
{
    let start = pass_spaces(s, 0);
    match read_value(s, start, MAX_DEPTH) {
        Some((v, after)) => {
            let end = pass_spaces(s, after);
            if end == s.len() {
                Some(v)
            } else {
                None
            }
        },
        None => None,
    }
}

} // verus!
