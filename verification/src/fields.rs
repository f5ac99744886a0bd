//! Reading and writing the members of JSON objects by name.
use vstd::prelude::*;
use crate::bytes::{decimal, decimal_value, is_decimal, is_digit, lemma_decimal_round_trip, push_decimal, read_decimal};
use crate::json::lex::{digits_end, is_number};
use crate::json::{duplicate, items_view, members_view, well_formed, Json, JsonView, Member, MemberView};
use crate::props::{allowed, is_allowed, Kind};

verus! {

/// The value of the first member of `ms` that is named `key`.
pub open spec fn find(ms: Seq<MemberView>, key: Seq<u8>) -> Option<JsonView>
    decreases ms.len(),
{
    if ms.len() == 0 {
        None
    } else {
        match find(ms.drop_last(), key) {
            Some(v) => Some(v),
            None => if ms.last().key == key {
                Some(ms.last().value)
            } else {
                None
            },
        }
    }
}

/// The members of `ms` that an object of `kind` keeps as they are, in
/// their order.
pub open spec fn retain(ms: Seq<MemberView>, kind: Kind) -> Seq<MemberView>
    decreases ms.len(),
{
    if ms.len() == 0 {
        Seq::empty()
    } else if allowed(kind, ms.last().key) {
        retain(ms.drop_last(), kind).push(ms.last())
    } else {
        retain(ms.drop_last(), kind)
    }
}

/// Whether an object of `kind` keeps every member of `ms`.
pub open spec fn keys_within(ms: Seq<MemberView>, kind: Kind) -> bool {
    forall|i: int| 0 <= i < ms.len() ==> allowed(kind, (#[trigger] ms[i]).key)
}

/// Whether every value in `ms` is well formed within `depth`.
pub open spec fn members_well_formed(ms: Seq<MemberView>, depth: nat) -> bool {
    forall|i: int| 0 <= i < ms.len() ==> well_formed((#[trigger] ms[i]).value, depth)
}

pub proof fn lemma_find_push(ms: Seq<MemberView>, m: MemberView, key: Seq<u8>)
    ensures
        find(ms.push(m), key) == match find(ms, key) {
            Some(v) => Some(v),
            None => if m.key == key {
                Some(m.value)
            } else {
                None
            },
        },
{
    assert(ms.push(m).drop_last() =~= ms);
}

pub broadcast proof fn lemma_find_concat(a: Seq<MemberView>, b: Seq<MemberView>, key: Seq<u8>)
    ensures
        #[trigger] find(a + b, key) == match find(a, key) {
            Some(v) => Some(v),
            None => find(b, key),
        },
    decreases b.len(),
{
    if b.len() == 0 {
        assert(a + b =~= a);
    } else {
        assert((a + b).drop_last() =~= a + b.drop_last());
        lemma_find_concat(a, b.drop_last(), key);
    }
}

/// A name that is not kept names no member among members that are all
/// kept.
pub proof fn lemma_find_absent(ms: Seq<MemberView>, kind: Kind, key: Seq<u8>)
    requires
        keys_within(ms, kind),
        !allowed(kind, key),
    ensures
        find(ms, key) is None,
    decreases ms.len(),
{
    if ms.len() > 0 {
        assert(allowed(kind, ms[ms.len() - 1].key));
        lemma_find_absent(ms.drop_last(), kind, key);
    }
}

pub proof fn lemma_retain_push(ms: Seq<MemberView>, m: MemberView, kind: Kind)
    ensures
        retain(ms.push(m), kind) == if allowed(kind, m.key) {
            retain(ms, kind).push(m)
        } else {
            retain(ms, kind)
        },
{
    assert(ms.push(m).drop_last() =~= ms);
}

pub broadcast proof fn lemma_retain_concat(a: Seq<MemberView>, b: Seq<MemberView>, kind: Kind)
    ensures
        #[trigger] retain(a + b, kind) == retain(a, kind) + retain(b, kind),
    decreases b.len(),
{
    if b.len() == 0 {
        assert(a + b =~= a);
        assert(retain(a, kind) + retain(b, kind) =~= retain(a, kind));
    } else {
        assert((a + b).drop_last() =~= a + b.drop_last());
        lemma_retain_concat(a, b.drop_last(), kind);
        if allowed(kind, b.last().key) {
            assert(retain(a, kind) + retain(b.drop_last(), kind).push(b.last()) =~= (retain(a, kind)
                + retain(b.drop_last(), kind)).push(b.last()));
        }
    }
}

/// Members that are all kept are all retained.
pub proof fn lemma_retain_all(ms: Seq<MemberView>, kind: Kind)
    requires
        keys_within(ms, kind),
    ensures
        retain(ms, kind) == ms,
    decreases ms.len(),
{
    if ms.len() > 0 {
        assert(allowed(kind, ms[ms.len() - 1].key));
        lemma_retain_all(ms.drop_last(), kind);
        assert(ms.drop_last().push(ms.last()) =~= ms);
    } else {
        assert(ms =~= Seq::empty());
    }
}

/// What is retained is kept, and its values are as well formed as the
/// values it was retained from.
pub proof fn lemma_retain_sound(ms: Seq<MemberView>, kind: Kind, depth: nat)
    ensures
        keys_within(retain(ms, kind), kind),
        members_well_formed(ms, depth) ==> members_well_formed(retain(ms, kind), depth),
    decreases ms.len(),
{
    if ms.len() > 0 {
        lemma_retain_sound(ms.drop_last(), kind, depth);
        let r = retain(ms, kind);
        let p = retain(ms.drop_last(), kind);
        assert forall|i: int| 0 <= i < r.len() implies allowed(kind, (#[trigger] r[i]).key) by {
            if i < p.len() {
                assert(r[i] == p[i]);
            }
        }
        if members_well_formed(ms, depth) {
            assert forall|i: int| 0 <= i < ms.drop_last().len() implies well_formed(
                (#[trigger] ms.drop_last()[i]).value,
                depth,
            ) by {
                assert(ms.drop_last()[i] == ms[i]);
            }
            assert forall|i: int| 0 <= i < r.len() implies well_formed((#[trigger] r[i]).value, depth) by {
                if i < p.len() {
                    assert(r[i] == p[i]);
                } else {
                    assert(r[i] == ms[ms.len() - 1]);
                }
            }
        }
    }
}

/// Whether two byte strings hold the same bytes.
pub fn is_key(k: &Vec<u8>, lit: &[u8]) -> (r: bool)
    ensures
        r == (k@ == lit@),
{
    if k.len() != lit.len() {
        return false;
    }
    let mut i: usize = 0;
    while i < k.len()
        invariant
            i <= k.len(),
            k.len() == lit.len(),
            forall|j: int| 0 <= j < i ==> k@[j] == lit@[j],
        decreases k.len() - i,
    {
        if k[i] != lit[i] {
            return false;
        }
        i += 1;
    }
    assert(k@ =~= lit@);
    true
}

/// Copies a byte string.
pub fn to_vec(lit: &[u8]) -> (r: Vec<u8>)
    ensures
        r@ == lit@,
{
    let mut r: Vec<u8> = Vec::new();
    let mut i: usize = 0;
    while i < lit.len()
        invariant
            i <= lit.len(),
            r@ == lit@.subrange(0, i as int),
        decreases lit.len() - i,
    {
        r.push(lit[i]);
        i += 1;
    }
    assert(lit@.subrange(0, lit.len() as int) == lit@);
    r
}

/// Finds the first member named `key`.
pub fn lookup<'a>(ms: &'a Vec<Member>, key: &[u8]) -> (r: Option<&'a Json>)
    ensures
        match r {
            Some(v) => find(members_view(ms@), key@) == Some(v@),
            None => find(members_view(ms@), key@) is None,
        },
{
    let ghost mv = members_view(ms@);
    let mut i: usize = 0;
    while i < ms.len()
        invariant
            i <= ms.len(),
            mv == members_view(ms@),
            find(mv.subrange(0, i as int), key@) is None,
        decreases ms.len() - i,
    {
        let ghost pre = mv.subrange(0, i + 1);
        assert(pre.drop_last() =~= mv.subrange(0, i as int));
        assert(pre.last() == ms@[i as int]@);
        if is_key(&ms[i].key, key) {
            proof {
                lemma_find_concat(pre, mv.subrange(i + 1, mv.len() as int), key@);
                assert(pre + mv.subrange(i + 1, mv.len() as int) =~= mv);
            }
            return Some(&ms[i].value);
        }
        i += 1;
    }
    assert(mv.subrange(0, ms.len() as int) =~= mv);
    None
}

/// The index that `v` denotes: a decimal numeral without sign, fraction or
/// exponent that fits the machine's index type.
pub open spec fn index_of(v: JsonView) -> Option<usize> {
    match v {
        JsonView::Number(n) => match decimal_value(n) {
            Some(x) => if x <= usize::MAX {
                Some(x as usize)
            } else {
                None
            },
            None => None,
        },
        _ => None,
    }
}

/// The JSON number that denotes the index `n`.
pub open spec fn index_json(n: usize) -> JsonView {
    JsonView::Number(decimal(n as nat))
}

/// The indices that the items denote, if every one of them denotes one.
pub open spec fn indices_of(items: Seq<JsonView>) -> Option<Seq<usize>> {
    if forall|i: int| 0 <= i < items.len() ==> index_of(#[trigger] items[i]) is Some {
        Some(Seq::new(items.len(), |i: int| index_of(items[i]).unwrap()))
    } else {
        None
    }
}

/// The JSON array that denotes the indices `list`.
pub open spec fn indices_json(list: Seq<usize>) -> JsonView {
    JsonView::Array(Seq::new(list.len(), |i: int| index_json(list[i])))
}

/// The index under `key`: none where the member is absent, nothing where
/// the member denotes no index.
pub open spec fn opt_index(ms: Seq<MemberView>, key: Seq<u8>) -> Option<Option<usize>> {
    match find(ms, key) {
        None => Some(None),
        Some(v) => match index_of(v) {
            Some(n) => Some(Some(n)),
            None => None,
        },
    }
}

/// The indices under `key`: none where the member is absent, nothing where
/// the member is no array of indices.
pub open spec fn index_list(ms: Seq<MemberView>, key: Seq<u8>) -> Option<Seq<usize>> {
    match find(ms, key) {
        None => Some(Seq::empty()),
        Some(JsonView::Array(items)) => indices_of(items),
        Some(_) => None,
    }
}

/// The text under `key`: none where the member is absent, nothing where
/// the member is no text.
pub open spec fn opt_text(ms: Seq<MemberView>, key: Seq<u8>) -> Option<Option<Seq<u8>>> {
    match find(ms, key) {
        None => Some(None),
        Some(JsonView::Text(t)) => Some(Some(t)),
        Some(_) => None,
    }
}

/// The truth value under `key`: false where the member is absent, nothing
/// where the member is no truth value.
pub open spec fn flag(ms: Seq<MemberView>, key: Seq<u8>) -> Option<bool> {
    match find(ms, key) {
        None => Some(false),
        Some(JsonView::Bool(b)) => Some(b),
        Some(_) => None,
    }
}

/// The members of the object under `key`: none where the member is absent,
/// nothing where the member is no object.
pub open spec fn opt_object(ms: Seq<MemberView>, key: Seq<u8>) -> Option<Option<Seq<MemberView>>> {
    match find(ms, key) {
        None => Some(None),
        Some(JsonView::Object(inner)) => Some(Some(inner)),
        Some(_) => None,
    }
}

/// The items of the array under `key`: none where the member is absent,
/// nothing where the member is no array.
pub open spec fn array(ms: Seq<MemberView>, key: Seq<u8>) -> Option<Seq<JsonView>> {
    match find(ms, key) {
        None => Some(Seq::empty()),
        Some(JsonView::Array(items)) => Some(items),
        Some(_) => None,
    }
}

/// `ms` with `value` under `key`, if there is one.
pub open spec fn with_member(ms: Seq<MemberView>, key: Seq<u8>, value: Option<JsonView>) -> Seq<
    MemberView,
> {
    match value {
        Some(v) => ms.push(MemberView { key, value: v }),
        None => ms,
    }
}

/// `ms` with the index `v` under `key`, if there is one.
pub open spec fn with_index(ms: Seq<MemberView>, key: Seq<u8>, v: Option<usize>) -> Seq<MemberView> {
    with_member(
        ms,
        key,
        match v {
            Some(n) => Some(index_json(n)),
            None => None,
        },
    )
}

/// `ms` with the indices `list` under `key`, unless the list is empty.
pub open spec fn with_index_list(ms: Seq<MemberView>, key: Seq<u8>, list: Seq<usize>) -> Seq<MemberView> {
    with_member(
        ms,
        key,
        if list.len() == 0 {
            None
        } else {
            Some(indices_json(list))
        },
    )
}

/// `ms` with the text `t` under `key`, if there is one.
pub open spec fn with_text(ms: Seq<MemberView>, key: Seq<u8>, t: Option<Seq<u8>>) -> Seq<MemberView> {
    with_member(
        ms,
        key,
        match t {
            Some(t) => Some(JsonView::Text(t)),
            None => None,
        },
    )
}

/// `ms` with `true` under `key`, if `b` holds.
pub open spec fn with_flag(ms: Seq<MemberView>, key: Seq<u8>, b: bool) -> Seq<MemberView> {
    with_member(
        ms,
        key,
        if b {
            Some(JsonView::Bool(true))
        } else {
            None
        },
    )
}

/// `ms` with the array of `items` under `key`, unless there are none.
pub open spec fn with_array(ms: Seq<MemberView>, key: Seq<u8>, items: Seq<JsonView>) -> Seq<MemberView> {
    with_member(
        ms,
        key,
        if items.len() == 0 {
            None
        } else {
            Some(JsonView::Array(items))
        },
    )
}

/// `ms` with the object of `inner` under `key`, unless it has no members.
pub open spec fn with_object(ms: Seq<MemberView>, key: Seq<u8>, inner: Seq<MemberView>) -> Seq<
    MemberView,
> {
    with_member(
        ms,
        key,
        if inner.len() == 0 {
            None
        } else {
            Some(JsonView::Object(inner))
        },
    )
}

/// What is found in an object to which a member was added.
pub broadcast proof fn lemma_find_with_member(
    ms: Seq<MemberView>,
    key: Seq<u8>,
    value: Option<JsonView>,
    q: Seq<u8>,
)
    ensures
        #[trigger] find(with_member(ms, key, value), q) == match find(ms, q) {
            Some(v) => Some(v),
            None => if q == key {
                value
            } else {
                None
            },
        },
{
    if let Some(v) = value {
        lemma_find_push(ms, MemberView { key, value: v }, q);
    }
}

/// A member that is not kept adds nothing to what is retained.
pub broadcast proof fn lemma_retain_with_member(
    ms: Seq<MemberView>,
    key: Seq<u8>,
    value: Option<JsonView>,
    kind: Kind,
)
    requires
        !allowed(kind, key),
    ensures
        #[trigger] retain(with_member(ms, key, value), kind) == retain(ms, kind),
{
    if let Some(v) = value {
        lemma_retain_push(ms, MemberView { key, value: v }, kind);
    }
}

/// Adding a member keeps the values well formed, if its value is.
pub broadcast proof fn lemma_well_formed_with_member(
    ms: Seq<MemberView>,
    key: Seq<u8>,
    value: Option<JsonView>,
    depth: nat,
)
    requires
        members_well_formed(ms, depth),
        value matches Some(v) ==> well_formed(v, depth),
    ensures
        #[trigger] members_well_formed(with_member(ms, key, value), depth),
{
}

/// Values that are well formed apart are well formed together.
pub broadcast proof fn lemma_well_formed_concat(a: Seq<MemberView>, b: Seq<MemberView>, depth: nat)
    requires
        members_well_formed(a, depth),
        members_well_formed(b, depth),
    ensures
        #[trigger] members_well_formed(a + b, depth),
{
}

/// A run of digits that reaches the end of the string ends there.
proof fn lemma_digits_to_end(l: Seq<u8>, i: int)
    requires
        0 <= i <= l.len(),
        forall|k: int| i <= k < l.len() ==> is_digit(#[trigger] l[k]),
    ensures
        digits_end(l, i) == l.len(),
    decreases l.len() - i,
{
    if i < l.len() {
        lemma_digits_to_end(l, i + 1);
    }
}

/// The numeral of an index is a JSON numeral and denotes the index.
pub proof fn lemma_index_json(n: usize)
    ensures
        index_of(index_json(n)) == Some(n),
        is_number(decimal(n as nat)),
        forall|d: nat| well_formed(index_json(n), d),
{
    lemma_decimal_round_trip(n as nat);
    let l = decimal(n as nat);
    assert(is_decimal(l));
    assert(is_digit(l[0]));
    lemma_digits_to_end(l, 0);
}

/// The array of a list of indices denotes the list.
pub proof fn lemma_indices_json(list: Seq<usize>)
    ensures
        indices_of(indices_json(list)->Array_0) == Some(list),
        forall|d: nat| d > 0 ==> well_formed(indices_json(list), d),
{
    let items = indices_json(list)->Array_0;
    assert forall|i: int| 0 <= i < items.len() implies index_of(#[trigger] items[i]) == Some(list[i]) by {
        lemma_index_json(list[i]);
    }
    assert(indices_of(items).unwrap() =~= list);
    assert forall|d: nat| d > 0 implies well_formed(indices_json(list), d) by {
        assert forall|i: int| 0 <= i < items.len() implies well_formed(
            #[trigger] items[i],
            (d - 1) as nat,
        ) by {
            lemma_index_json(list[i]);
        }
    }
}

/// Reads `v` as an index.
pub fn read_index(v: &Json) -> (r: Option<usize>)
    ensures
        r == index_of(v@),
{
    match v {
        Json::Number(n) => read_decimal(n),
        _ => None,
    }
}

/// Reads the items as indices.
pub fn read_indices(items: &Vec<Json>) -> (r: Option<Vec<usize>>)
    ensures
        match r {
            Some(list) => indices_of(items_view(items@)) == Some(list@),
            None => indices_of(items_view(items@)) is None,
        },
{
    let ghost iv = items_view(items@);
    let mut out: Vec<usize> = Vec::new();
    let mut i: usize = 0;
    while i < items.len()
        invariant
            i <= items.len(),
            iv == items_view(items@),
            out.len() == i,
            forall|j: int| 0 <= j < i ==> index_of(#[trigger] iv[j]) == Some(out@[j]),
        decreases items.len() - i,
    {
        assert(iv[i as int] == items@[i as int]@);
        match read_index(&items[i]) {
            Some(n) => {
                out.push(n);
            },
            None => {
                return None;
            },
        }
        i += 1;
    }
    assert(indices_of(iv).unwrap() =~= out@);
    Some(out)
}

/// Reads the index under `key`.
pub fn get_index(ms: &Vec<Member>, key: &[u8]) -> (r: Option<Option<usize>>)
    ensures
        r == opt_index(members_view(ms@), key@),
{
    match lookup(ms, key) {
        None => Some(None),
        Some(v) => match read_index(v) {
            Some(n) => Some(Some(n)),
            None => None,
        },
    }
}

/// Reads the indices under `key`.
pub fn get_index_list(ms: &Vec<Member>, key: &[u8]) -> (r: Option<Vec<usize>>)
    ensures
        match r {
            Some(list) => index_list(members_view(ms@), key@) == Some(list@),
            None => index_list(members_view(ms@), key@) is None,
        },
{
    match lookup(ms, key) {
        None => Some(Vec::new()),
        Some(Json::Array(items)) => {
            proof {
                crate::json::lemma_array_view(*items);
            }
            read_indices(items)
        },
        Some(_) => None,
    }
}

/// Reads the text under `key`.
pub fn get_text(ms: &Vec<Member>, key: &[u8]) -> (r: Option<Option<Vec<u8>>>)
    ensures
        match r {
            Some(Some(t)) => opt_text(members_view(ms@), key@) == Some(Some(t@)),
            Some(None) => opt_text(members_view(ms@), key@) == Some(None::<Seq<u8>>),
            None => opt_text(members_view(ms@), key@) is None,
        },
{
    match lookup(ms, key) {
        None => Some(None),
        Some(Json::Text(t)) => Some(Some(crate::bytes::copy_range(t, 0, t.len()))),
        Some(_) => None,
    }
}

/// Reads the truth value under `key`.
pub fn get_flag(ms: &Vec<Member>, key: &[u8]) -> (r: Option<bool>)
    ensures
        r == flag(members_view(ms@), key@),
{
    match lookup(ms, key) {
        None => Some(false),
        Some(Json::Bool(b)) => Some(*b),
        Some(_) => None,
    }
}

/// Reads the object under `key`.
pub fn get_object<'a>(ms: &'a Vec<Member>, key: &[u8]) -> (r: Option<Option<&'a Vec<Member>>>)
    ensures
        match r {
            Some(Some(inner)) => opt_object(members_view(ms@), key@) == Some(Some(members_view(inner@))),
            Some(None) => opt_object(members_view(ms@), key@) == Some(None::<Seq<MemberView>>),
            None => opt_object(members_view(ms@), key@) is None,
        },
{
    match lookup(ms, key) {
        None => Some(None),
        Some(Json::Object(inner)) => {
            proof {
                crate::json::lemma_object_view(*inner);
            }
            Some(Some(inner))
        },
        Some(_) => None,
    }
}

/// Reads the array under `key`.
pub fn get_array<'a>(ms: &'a Vec<Member>, key: &[u8]) -> (r: Option<Option<&'a Vec<Json>>>)
    ensures
        match r {
            Some(Some(items)) => array(members_view(ms@), key@) == Some(items_view(items@)) && find(
                members_view(ms@),
                key@,
            ) is Some,
            Some(None) => array(members_view(ms@), key@) == Some(Seq::<JsonView>::empty()) && find(
                members_view(ms@),
                key@,
            ) is None,
            None => array(members_view(ms@), key@) is None,
        },
{
    match lookup(ms, key) {
        None => Some(None),
        Some(Json::Array(items)) => {
            proof {
                crate::json::lemma_array_view(*items);
            }
            Some(Some(items))
        },
        Some(_) => None,
    }
}

/// The JSON number of an index.
pub fn index_value(n: usize) -> (r: Json)
    ensures
        r@ == index_json(n),
{
    let mut digits: Vec<u8> = Vec::new();
    push_decimal(&mut digits, n);
    assert(digits@ =~= decimal(n as nat));
    Json::Number(digits)
}

/// The JSON array of a list of indices.
pub fn indices_value(list: &Vec<usize>) -> (r: Json)
    ensures
        r@ == indices_json(list@),
{
    let mut items: Vec<Json> = Vec::new();
    let mut i: usize = 0;
    while i < list.len()
        invariant
            i <= list.len(),
            items.len() == i,
            forall|j: int| 0 <= j < i ==> (#[trigger] items@[j])@ == index_json(list@[j]),
        decreases list.len() - i,
    {
        items.push(index_value(list[i]));
        i += 1;
    }
    proof {
        crate::json::lemma_array_view(items);
        assert(items_view(items@) =~= indices_json(list@)->Array_0);
    }
    Json::Array(items)
}

/// The index under `key`, which must be there.
pub open spec fn req_index(ms: Seq<MemberView>, key: Seq<u8>) -> Option<usize> {
    match opt_index(ms, key) {
        Some(Some(n)) => Some(n),
        _ => None,
    }
}

/// The index under `key`, or zero where the member is absent.
pub open spec fn def_index(ms: Seq<MemberView>, key: Seq<u8>) -> Option<usize> {
    match opt_index(ms, key) {
        Some(Some(n)) => Some(n),
        Some(None) => Some(0usize),
        None => None,
    }
}

/// The index `n` as it is written where zero is the default: not at all
/// where it is zero.
pub open spec fn nonzero(n: usize) -> Option<usize> {
    if n == 0 {
        None
    } else {
        Some(n)
    }
}

/// The text under `key`, which must be there.
pub open spec fn req_text(ms: Seq<MemberView>, key: Seq<u8>) -> Option<Seq<u8>> {
    match opt_text(ms, key) {
        Some(Some(t)) => Some(t),
        _ => None,
    }
}

/// The texts that the items are, if every one of them is a text.
pub open spec fn texts_of(items: Seq<JsonView>) -> Option<Seq<Seq<u8>>> {
    if forall|i: int| 0 <= i < items.len() ==> (#[trigger] items[i]) is Text {
        Some(Seq::new(items.len(), |i: int| items[i]->Text_0))
    } else {
        None
    }
}

/// The JSON array of the texts `list`.
pub open spec fn texts_json(list: Seq<Seq<u8>>) -> Seq<JsonView> {
    Seq::new(list.len(), |i: int| JsonView::Text(list[i]))
}

/// The texts under `key`: none where the member is absent, nothing where
/// the member is no array of texts.
pub open spec fn text_list(ms: Seq<MemberView>, key: Seq<u8>) -> Option<Seq<Seq<u8>>> {
    match array(ms, key) {
        Some(items) => texts_of(items),
        None => None,
    }
}

/// The byte strings of a list.
pub open spec fn texts_view(list: Seq<Vec<u8>>) -> Seq<Seq<u8>> {
    Seq::new(list.len(), |i: int| list[i]@)
}

/// Reads the index under `key`, which must be there.
pub fn get_req_index(ms: &Vec<Member>, key: &[u8]) -> (r: Option<usize>)
    ensures
        r == req_index(members_view(ms@), key@),
{
    match get_index(ms, key) {
        Some(Some(n)) => Some(n),
        _ => None,
    }
}

/// Reads the index under `key`, or zero where the member is absent.
pub fn get_def_index(ms: &Vec<Member>, key: &[u8]) -> (r: Option<usize>)
    ensures
        r == def_index(members_view(ms@), key@),
{
    match get_index(ms, key) {
        Some(Some(n)) => Some(n),
        Some(None) => Some(0),
        None => None,
    }
}

/// Reads the text under `key`, which must be there.
pub fn get_req_text(ms: &Vec<Member>, key: &[u8]) -> (r: Option<Vec<u8>>)
    ensures
        match r {
            Some(t) => req_text(members_view(ms@), key@) == Some(t@),
            None => req_text(members_view(ms@), key@) is None,
        },
{
    match get_text(ms, key) {
        Some(Some(t)) => Some(t),
        _ => None,
    }
}

/// Reads the texts under `key`.
pub fn get_text_list(ms: &Vec<Member>, key: &[u8]) -> (r: Option<Vec<Vec<u8>>>)
    ensures
        match r {
            Some(list) => text_list(members_view(ms@), key@) == Some(texts_view(list@)),
            None => text_list(members_view(ms@), key@) is None,
        },
{
    let items = match get_array(ms, key) {
        Some(Some(items)) => items,
        Some(None) => {
            let out: Vec<Vec<u8>> = Vec::new();
            assert(texts_view(out@) =~= texts_of(Seq::<JsonView>::empty()).unwrap());
            return Some(out);
        },
        None => {
            return None;
        },
    };
    let ghost iv = items_view(items@);
    let mut out: Vec<Vec<u8>> = Vec::new();
    let mut i: usize = 0;
    while i < items.len()
        invariant
            i <= items.len(),
            iv == items_view(items@),
            array(members_view(ms@), key@) == Some(iv),
            out.len() == i,
            forall|j: int| 0 <= j < i ==> #[trigger] iv[j] == JsonView::Text(out@[j]@),
        decreases items.len() - i,
    {
        assert(iv[i as int] == items@[i as int]@);
        match &items[i] {
            Json::Text(t) => {
                out.push(crate::bytes::clone_bytes(t));
            },
            _ => {
                assert(iv.len() == items.len());
                assert(!(iv[i as int] is Text));
                return None;
            },
        }
        i += 1;
    }
    assert(texts_of(iv).unwrap() =~= texts_view(out@));
    Some(out)
}

/// The JSON texts of a list of byte strings.
pub fn texts_value(list: &Vec<Vec<u8>>) -> (r: Vec<Json>)
    ensures
        items_view(r@) == texts_json(texts_view(list@)),
{
    let mut items: Vec<Json> = Vec::new();
    let mut i: usize = 0;
    while i < list.len()
        invariant
            i <= list.len(),
            items.len() == i,
            forall|j: int| 0 <= j < i ==> (#[trigger] items@[j])@ == JsonView::Text(list@[j]@),
        decreases list.len() - i,
    {
        items.push(Json::Text(crate::bytes::clone_bytes(&list[i])));
        i += 1;
    }
    assert(items_view(items@) =~= texts_json(texts_view(list@)));
    items
}

/// A list of texts is read back from its JSON array.
pub proof fn lemma_texts_json(list: Seq<Seq<u8>>)
    ensures
        texts_of(texts_json(list)) == Some(list),
        forall|d: nat| d > 0 ==> well_formed(JsonView::Array(texts_json(list)), d),
{
    assert(texts_of(texts_json(list)).unwrap() =~= list);
    assert forall|d: nat| d > 0 implies well_formed(JsonView::Array(texts_json(list)), d) by {
        assert forall|i: int| 0 <= i < texts_json(list).len() implies well_formed(
            #[trigger] texts_json(list)[i],
            (d - 1) as nat,
        ) by {}
    }
}

/// The members of `ms` that an object of `kind` keeps, copied.
pub fn keep(ms: &Vec<Member>, kind: Kind) -> (r: Vec<Member>)
    ensures
        members_view(r@) == retain(members_view(ms@), kind),
{
    let ghost mv = members_view(ms@);
    let mut out: Vec<Member> = Vec::new();
    let mut i: usize = 0;
    assert(members_view(out@) =~= retain(mv.subrange(0, 0), kind));
    while i < ms.len()
        invariant
            i <= ms.len(),
            mv == members_view(ms@),
            members_view(out@) == retain(mv.subrange(0, i as int), kind),
        decreases ms.len() - i,
    {
        let ghost pre = mv.subrange(0, i + 1);
        let ghost before = members_view(out@);
        assert(pre.drop_last() =~= mv.subrange(0, i as int));
        assert(pre.last() == ms@[i as int]@);
        if is_allowed(kind, &ms[i].key) {
            let value = duplicate(&ms[i].value);
            out.push(Member { key: crate::bytes::clone_bytes(&ms[i].key), value });
            assert(members_view(out@) =~= before.push(ms@[i as int]@));
        }
        i += 1;
    }
    assert(mv.subrange(0, ms.len() as int) =~= mv);
    out
}

/// Appends copies of the members `more`.
pub fn put_all(ms: &mut Vec<Member>, more: &Vec<Member>)
    ensures
        members_view(final(ms)@) == members_view(old(ms)@) + members_view(more@),
{
    let mut i: usize = 0;
    assert(members_view(ms@) =~= members_view(old(ms)@) + members_view(more@).subrange(0, 0));
    while i < more.len()
        invariant
            i <= more.len(),
            members_view(ms@) == members_view(old(ms)@) + members_view(more@).subrange(0, i as int),
        decreases more.len() - i,
    {
        let ghost before = members_view(ms@);
        let value = duplicate(&more[i].value);
        ms.push(Member { key: crate::bytes::clone_bytes(&more[i].key), value });
        assert(members_view(ms@) =~= before.push(more@[i as int]@));
        assert(members_view(more@).subrange(0, i + 1) =~= members_view(more@).subrange(0, i as int).push(
            more@[i as int]@,
        ));
        i += 1;
    }
    assert(members_view(more@).subrange(0, more.len() as int) =~= members_view(more@));
}

/// Appends a member.
pub fn put(ms: &mut Vec<Member>, key: &[u8], value: Json)
    ensures
        members_view(final(ms)@) == members_view(old(ms)@).push(MemberView { key: key@, value: value@ }),
{
    let k = to_vec(key);
    ms.push(Member { key: k, value });
    assert(members_view(ms@) =~= members_view(old(ms)@).push(MemberView { key: key@, value: value@ }));
}

/// Appends the index `v` under `key`, if there is one.
pub fn put_index(ms: &mut Vec<Member>, key: &[u8], v: Option<usize>)
    ensures
        members_view(final(ms)@) == with_index(members_view(old(ms)@), key@, v),
{
    match v {
        Some(n) => {
            put(ms, key, index_value(n));
        },
        None => {},
    }
}

/// Appends the indices `list` under `key`, unless the list is empty.
pub fn put_index_list(ms: &mut Vec<Member>, key: &[u8], list: &Vec<usize>)
    ensures
        members_view(final(ms)@) == with_index_list(members_view(old(ms)@), key@, list@),
{
    if list.len() > 0 {
        put(ms, key, indices_value(list));
    }
}

/// Appends the text `t` under `key`, if there is one.
pub fn put_text(ms: &mut Vec<Member>, key: &[u8], t: &Option<Vec<u8>>)
    ensures
        members_view(final(ms)@) == with_text(
            members_view(old(ms)@),
            key@,
            match t {
                Some(t) => Some(t@),
                None => None,
            },
        ),
{
    match t {
        Some(t) => {
            let copy = crate::bytes::copy_range(t, 0, t.len());
            assert(copy@ =~= t@);
            put(ms, key, Json::Text(copy));
        },
        None => {},
    }
}

/// Appends `true` under `key`, if `b` holds.
pub fn put_flag(ms: &mut Vec<Member>, key: &[u8], b: bool)
    ensures
        members_view(final(ms)@) == with_flag(members_view(old(ms)@), key@, b),
{
    if b {
        put(ms, key, Json::Bool(true));
    }
}

/// Appends the array of `items` under `key`, unless there are none.
pub fn put_array(ms: &mut Vec<Member>, key: &[u8], items: Vec<Json>)
    ensures
        members_view(final(ms)@) == with_array(members_view(old(ms)@), key@, items_view(items@)),
{
    if items.len() > 0 {
        proof {
            crate::json::lemma_array_view(items);
        }
        put(ms, key, Json::Array(items));
    }
}

/// Appends the object of `inner` under `key`, unless it has no members.
pub fn put_object(ms: &mut Vec<Member>, key: &[u8], inner: Vec<Member>)
    ensures
        members_view(final(ms)@) == with_object(members_view(old(ms)@), key@, members_view(inner@)),
{
    if inner.len() > 0 {
        proof {
            crate::json::lemma_object_view(inner);
        }
        put(ms, key, Json::Object(inner));
    }
}

/// What the codecs of the entities rest on.
pub broadcast group group_members {
    lemma_find_with_member,
    lemma_retain_with_member,
    lemma_well_formed_with_member,
    lemma_well_formed_concat,
    lemma_find_concat,
    lemma_retain_concat,
}

} // verus!
