//! JSON values, and the one way in which a document writes them.
use crate::environment::{comes_before, lemma_text_order, lemma_text_transitive, text_before};
use crate::text::same_text;
use vstd::prelude::*;

verus! {

/// What a JSON value holds. The members of an object stand in the order in which they are
/// written.
pub enum JsonView {
    Null,
    Bool(bool),
    Unsigned(u64),
    Negative(i64),
    /// Any other number, by its text.
    Real(Seq<char>),
    Text(Seq<char>),
    Array(Seq<JsonView>),
    Object(Seq<MemberView>),
}

pub struct MemberView {
    pub key: Seq<char>,
    pub value: JsonView,
}

/// What a `serde_json::Value` holds.
pub uninterp spec fn json_of(value: serde_json::Value) -> JsonView;

/// What `serde_json::to_vec_pretty` writes for a value.
pub uninterp spec fn pretty_written(json: JsonView) -> Result<Seq<u8>, Seq<char>>;

pub open spec fn json_views(values: Seq<serde_json::Value>) -> Seq<JsonView> {
    Seq::new(values.len(), |i: int| json_of(values[i]))
}

pub open spec fn member_views(members: Seq<(String, serde_json::Value)>) -> Seq<MemberView> {
    Seq::new(
        members.len(),
        |i: int| MemberView { key: members[i].0@, value: json_of(members[i].1) },
    )
}

/// A JSON value taken apart by one level.
pub enum OpenedJson {
    Array(Vec<serde_json::Value>),
    Object(Vec<(String, serde_json::Value)>),
    Scalar(serde_json::Value),
}

/// Tells the variants of `serde_json::Value` apart: an array gives its values and an object its
/// members, both in order, and any other value stays as it is.
#[verifier::external_body]
fn open_value(value: serde_json::Value) -> (opened: OpenedJson)
    ensures
        match json_of(value) {
            JsonView::Array(items) => opened is Array && json_views(opened->Array_0@) == items,
            JsonView::Object(members) => opened is Object && member_views(opened->Object_0@)
                == members,
            _ => opened == OpenedJson::Scalar(value),
        },
{
    match value {
        serde_json::Value::Array(values) => OpenedJson::Array(values),
        serde_json::Value::Object(members) => OpenedJson::Object(members.into_iter().collect()),
        other => OpenedJson::Scalar(other),
    }
}

/// `serde_json::Value::Array` holds the values in order.
#[verifier::external_body]
fn array_value(values: Vec<serde_json::Value>) -> (value: serde_json::Value)
    ensures
        json_of(value) == JsonView::Array(json_views(values@)),
{
    serde_json::Value::Array(values)
}

/// Each key comes before the next.
pub open spec fn members_ordered(members: Seq<MemberView>) -> bool {
    forall|i: int, j: int|
        0 <= i < j < members.len() ==> text_before(
            (#[trigger] members[i]).key,
            (#[trigger] members[j]).key,
        )
}

/// `serde_json::Map`, filled with members whose keys are in order, holds them in that order. What
/// it holds of members that are not in order is left open here.
#[verifier::external_body]
fn object_value(members: Vec<(String, serde_json::Value)>) -> (value: serde_json::Value)
    ensures
        members_ordered(member_views(members@)) ==> json_of(value) == JsonView::Object(
            member_views(members@),
        ),
{
    serde_json::Value::Object(members.into_iter().collect())
}

/// `serde_json::Value::is_object` tells objects from other values. An object is a map, so that it
/// holds no key twice.
#[verifier::external_body]
pub(crate) fn is_object(value: &serde_json::Value) -> (object: bool)
    ensures
        object == (json_of(*value) is Object),
        object ==> keys_unique(json_of(*value)->Object_0),
{
    value.is_object()
}

/// The member with this key stands at `at`.
pub open spec fn is_member_at(members: Seq<MemberView>, key: Seq<char>, at: int) -> bool {
    0 <= at < members.len() && members[at].key == key
}

/// `serde_json::Value::get`, given a text, finds the member of an object with that key, and
/// nothing in any other value.
#[verifier::external_body]
pub(crate) fn get_member<'a>(value: &'a serde_json::Value, key: &str) -> (found: Option<
    &'a serde_json::Value,
>)
    ensures
        match json_of(*value) {
            JsonView::Object(members) => match found {
                Some(member) => exists|at: int| #[trigger]
                    is_member_at(members, key@, at) && json_of(*member) == members[at].value,
                None => forall|at: int| !#[trigger] is_member_at(members, key@, at),
            },
            _ => found is None,
        },
{
    value.get(key)
}

/// `serde_json::Value::as_u64` gives the number of a value that is an unsigned integer.
#[verifier::external_body]
pub(crate) fn as_unsigned(value: &serde_json::Value) -> (number: Option<u64>)
    ensures
        number == (match json_of(*value) {
            JsonView::Unsigned(number) => Some(number),
            _ => None,
        }),
{
    value.as_u64()
}

/// `serde_json::to_vec_pretty` writes a value out over several lines, or says why it cannot. What
/// it writes for what a value holds is only named here.
#[verifier::external_body]
fn write_pretty(value: &serde_json::Value) -> (written: Result<Vec<u8>, String>)
    ensures
        match written {
            Ok(bytes) => pretty_written(json_of(*value)) == Ok::<Seq<u8>, Seq<char>>(bytes@),
            Err(words) => pretty_written(json_of(*value)) == Err::<Seq<u8>, Seq<char>>(words@),
        },
{
    serde_json::to_vec_pretty(value).map_err(|error| error.to_string())
}

/// How many members come before a key.
pub open spec fn place_of(members: Seq<MemberView>, key: Seq<char>) -> int
    decreases members.len(),
{
    if members.len() == 0 || text_before(members.last().key, key) {
        members.len() as int
    } else {
        place_of(members.drop_last(), key)
    }
}

/// Ordered members with one more in its place; it takes the place of one with the same key.
pub open spec fn placed(members: Seq<MemberView>, member: MemberView) -> Seq<MemberView> {
    let at = place_of(members, member.key);
    if at < members.len() && members[at].key == member.key {
        members.update(at, member)
    } else {
        members.insert(at, member)
    }
}

/// Members in the order of their keys.
pub open spec fn arranged(members: Seq<MemberView>) -> Seq<MemberView>
    decreases members.len(),
{
    if members.len() == 0 {
        Seq::empty()
    } else {
        placed(arranged(members.drop_last()), members.last())
    }
}

/// The value with the members of every object in the order of their keys.
pub open spec fn canonical(json: JsonView) -> JsonView
    decreases json,
{
    match json {
        JsonView::Array(items) => JsonView::Array(canonical_items(items)),
        JsonView::Object(members) => JsonView::Object(arranged(canonical_members(members))),
        _ => json,
    }
}

pub open spec fn canonical_items(items: Seq<JsonView>) -> Seq<JsonView>
    decreases items,
{
    if items.len() == 0 {
        Seq::empty()
    } else {
        canonical_items(items.drop_last()).push(canonical(items[items.len() - 1]))
    }
}

pub open spec fn canonical_members(members: Seq<MemberView>) -> Seq<MemberView>
    decreases members,
{
    if members.len() == 0 {
        Seq::empty()
    } else {
        let last = members[members.len() - 1];
        canonical_members(members.drop_last()).push(
            MemberView { key: last.key, value: canonical(last.value) },
        )
    }
}

/// What a key's place divides: the members before it come before the key, and those from it on do
/// not.
proof fn lemma_place(members: Seq<MemberView>, key: Seq<char>)
    requires
        members_ordered(members),
    ensures
        0 <= place_of(members, key) <= members.len(),
        forall|i: int|
            0 <= i < place_of(members, key) ==> text_before((#[trigger] members[i]).key, key),
        forall|i: int|
            place_of(members, key) <= i < members.len() ==> !text_before(
                (#[trigger] members[i]).key,
                key,
            ),
    decreases members.len(),
{
    if members.len() > 0 {
        let last = members.len() - 1;
        assert(members.last() == members[last]);
        if text_before(members.last().key, key) {
            assert forall|i: int| 0 <= i < members.len() implies text_before(
                (#[trigger] members[i]).key,
                key,
            ) by {
                if i < last {
                    lemma_text_transitive(members[i].key, members[last].key, key);
                }
            }
        } else {
            let before = members.drop_last();
            assert forall|i: int, j: int| 0 <= i < j < before.len() implies text_before(
                (#[trigger] before[i]).key,
                (#[trigger] before[j]).key,
            ) by {
                assert(before[i] == members[i] && before[j] == members[j]);
            }
            lemma_place(before, key);
            assert forall|i: int| 0 <= i < place_of(members, key) implies text_before(
                (#[trigger] members[i]).key,
                key,
            ) by {
                assert(before[i] == members[i]);
            }
            assert forall|i: int| place_of(members, key) <= i < members.len() implies !text_before(
                (#[trigger] members[i]).key,
                key,
            ) by {
                if i < before.len() {
                    assert(before[i] == members[i]);
                }
            }
        }
    }
}

/// A member in its place keeps the order.
proof fn lemma_placed_ordered(members: Seq<MemberView>, member: MemberView)
    requires
        members_ordered(members),
    ensures
        members_ordered(placed(members, member)),
        place_of(members, member.key) <= members.len(),
{
    let at = place_of(members, member.key);
    lemma_place(members, member.key);
    let after = placed(members, member);
    if at < members.len() && members[at].key == member.key {
        assert forall|i: int, j: int| 0 <= i < j < after.len() implies text_before(
            (#[trigger] after[i]).key,
            (#[trigger] after[j]).key,
        ) by {
            assert(after[i].key == members[i].key && after[j].key == members[j].key);
        }
    } else {
        assert forall|i: int, j: int| 0 <= i < j < after.len() implies text_before(
            (#[trigger] after[i]).key,
            (#[trigger] after[j]).key,
        ) by {
            let from = if i < at {
                i
            } else {
                i - 1
            };
            let to = if j < at {
                j
            } else {
                j - 1
            };
            if i == at {
                lemma_text_order(members[to].key, member.key);
                if to > at {
                    lemma_text_order(members[at].key, member.key);
                    lemma_text_transitive(member.key, members[at].key, members[to].key);
                }
            } else if j == at {
                assert(after[i] == members[i]);
            } else {
                assert(after[i] == members[from] && after[j] == members[to]);
            }
        }
    }
}

proof fn lemma_arranged_ordered(members: Seq<MemberView>)
    ensures
        members_ordered(arranged(members)),
    decreases members.len(),
{
    if members.len() > 0 {
        lemma_arranged_ordered(members.drop_last());
        lemma_placed_ordered(arranged(members.drop_last()), members.last());
    }
}

/// Where a key belongs among ordered members.
fn find_place(members: &Vec<(String, serde_json::Value)>, key: &str) -> (place: usize)
    ensures
        place == place_of(member_views(members@), key@),
        place <= members@.len(),
{
    let ghost views = member_views(members@);
    let mut place: usize = members.len();
    assert(views.take(place as int) =~= views);
    while place > 0 && !comes_before(members[place - 1].0.as_str(), key)
        invariant
            views == member_views(members@),
            place <= members@.len(),
            place_of(views, key@) == place_of(views.take(place as int), key@),
        decreases place,
    {
        assert(views.take(place as int).drop_last() =~= views.take(place - 1));
        assert(views.take(place as int).last() == views[place - 1]);
        place -= 1;
    }
    proof {
        if place > 0 {
            assert(views.take(place as int).last() == views[place - 1]);
        }
    }
    place
}

fn place_member(
    members: Vec<(String, serde_json::Value)>,
    key: String,
    value: serde_json::Value,
) -> (after: Vec<(String, serde_json::Value)>)
    ensures
        member_views(after@) == placed(
            member_views(members@),
            MemberView { key: key@, value: json_of(value) },
        ),
{
    let ghost before = member_views(members@);
    let ghost member = MemberView { key: key@, value: json_of(value) };
    let place = find_place(&members, key.as_str());
    let mut after = members;
    if place < after.len() && same_text(after[place].0.as_str(), key.as_str()) {
        after.set(place, (key, value));
        assert(member_views(after@) =~= before.update(place as int, member));
    } else {
        after.insert(place, (key, value));
        assert(member_views(after@) =~= before.insert(place as int, member));
    }
    after
}

/// Puts the members of every object in the order of their keys.
pub fn sort_object_keys(value: serde_json::Value) -> (sorted: serde_json::Value)
    ensures
        json_of(sorted) == canonical(json_of(value)),
    decreases json_of(value),
{
    let ghost json = json_of(value);
    match open_value(value) {
        OpenedJson::Scalar(scalar) => scalar,
        OpenedJson::Array(values) => {
            let ghost items = json_views(values@);
            let count = values.len();
            let mut sorted: Vec<serde_json::Value> = Vec::new();
            let mut index: usize = 0;
            assert(json_views(sorted@) =~= canonical_items(items.take(0)));
            for item in iterator: values
                invariant
                    json == json_of(value),
                    json == JsonView::Array(items),
                    count == iterator.seq().len(),
                    items == json_views(iterator.seq()),
                    index == iterator.index(),
                    json_views(sorted@) == canonical_items(items.take(index as int)),
            {
                let ghost before = json_views(sorted@);
                let ghost here = items.take(index + 1);
                assert(item == iterator.seq()[index as int]);
                assert(json_of(item) == items[index as int]);
                assert(decreases_to!(json => json->Array_0[index as int]));
                sorted.push(sort_object_keys(item));
                assert(here.drop_last() =~= items.take(index as int));
                assert(json_views(sorted@) =~= before.push(canonical(items[index as int])));
                index += 1;
            }
            assert(items.take(items.len() as int) =~= items);
            array_value(sorted)
        },
        OpenedJson::Object(entries) => {
            let ghost members = member_views(entries@);
            let count = entries.len();
            let mut sorted: Vec<(String, serde_json::Value)> = Vec::new();
            let mut index: usize = 0;
            assert(canonical_members(members.take(0)) =~= Seq::empty());
            assert(member_views(sorted@) =~= arranged(canonical_members(members.take(0))));
            for entry in iterator: entries
                invariant
                    json == json_of(value),
                    json == JsonView::Object(members),
                    count == iterator.seq().len(),
                    members == member_views(iterator.seq()),
                    index == iterator.index(),
                    member_views(sorted@) == arranged(
                        canonical_members(members.take(index as int)),
                    ),
            {
                let ghost here = members.take(index + 1);
                assert(entry == iterator.seq()[index as int]);
                let (key, member) = entry;
                assert(json_of(member) == members[index as int].value);
                assert(decreases_to!(json => json->Object_0[index as int].value));
                sorted = place_member(sorted, key, sort_object_keys(member));
                proof {
                    assert(here.drop_last() =~= members.take(index as int));
                    let done = canonical_members(here);
                    assert(done.drop_last() =~= canonical_members(members.take(index as int)));
                }
                index += 1;
            }
            assert(members.take(members.len() as int) =~= members);
            proof {
                lemma_arranged_ordered(canonical_members(members));
            }
            object_value(sorted)
        },
    }
}

/// The bytes of a document: its canonical form over several lines, and a line feed.
pub open spec fn document_bytes(json: JsonView) -> Result<Seq<u8>, Seq<char>> {
    match pretty_written(canonical(json)) {
        Ok(bytes) => Ok(bytes.push(10)),
        Err(words) => Err(words),
    }
}

/// Writes JSON with its keys in order, over several lines, with one line feed at the end.
pub fn pretty_json_value(value: &serde_json::Value) -> (written: Result<Vec<u8>, String>)
    ensures
        match document_bytes(json_of(*value)) {
            Ok(bytes) => written is Ok && written->Ok_0@ == bytes,
            Err(words) => written is Err && written->Err_0@ == words,
        },
{
    let sorted = sort_object_keys(value.clone());
    match write_pretty(&sorted) {
        Err(words) => Err(words),
        Ok(bytes) => {
            let mut bytes = bytes;
            bytes.push(10);
            Ok(bytes)
        },
    }
}

/// Whether the members of every object are in the order of their keys.
pub open spec fn is_canonical(json: JsonView) -> bool
    decreases json,
{
    match json {
        JsonView::Array(items) => forall|i: int|
            0 <= i < items.len() ==> is_canonical(#[trigger] items[i]),
        JsonView::Object(members) => members_ordered(members) && forall|i: int|
            0 <= i < members.len() ==> is_canonical((#[trigger] members[i]).value),
        _ => true,
    }
}

proof fn lemma_canonical_at(items: Seq<JsonView>, at: int)
    requires
        0 <= at < items.len(),
    ensures
        canonical_items(items).len() == items.len(),
        canonical_items(items)[at] == canonical(items[at]),
    decreases items.len(),
{
    if at < items.len() - 1 {
        lemma_canonical_at(items.drop_last(), at);
    } else if items.len() > 1 {
        lemma_canonical_at(items.drop_last(), 0);
    } else {
        assert(canonical_items(items.drop_last()) =~= Seq::empty());
    }
}

proof fn lemma_canonical_member_at(members: Seq<MemberView>, at: int)
    requires
        0 <= at < members.len(),
    ensures
        canonical_members(members).len() == members.len(),
        canonical_members(members)[at] == (MemberView {
            key: members[at].key,
            value: canonical(members[at].value),
        }),
    decreases members.len(),
{
    if at < members.len() - 1 {
        lemma_canonical_member_at(members.drop_last(), at);
    } else if members.len() > 1 {
        lemma_canonical_member_at(members.drop_last(), 0);
    } else {
        assert(canonical_members(members.drop_last()) =~= Seq::empty());
    }
}

/// What is arranged comes from the members.
proof fn lemma_arranged_from(members: Seq<MemberView>, at: int)
    requires
        0 <= at < arranged(members).len(),
    ensures
        members.contains(arranged(members)[at]),
    decreases members.len(),
{
    let before = members.drop_last();
    let sorted = arranged(before);
    lemma_arranged_ordered(before);
    lemma_place(sorted, members.last().key);
    let place = place_of(sorted, members.last().key);
    let found = arranged(members)[at];
    assert(members[members.len() - 1] == members.last());
    if found != members.last() {
        let from = if place < sorted.len() && sorted[place].key == members.last().key {
            at
        } else if at < place {
            at
        } else {
            at - 1
        };
        assert(found == sorted[from]);
        lemma_arranged_from(before, from);
        let i = choose|i: int| 0 <= i < before.len() && before[i] == found;
        assert(members[i] == found);
    }
}

/// The canonical form of a value has the members of every object in order.
pub proof fn canonical_forms_are_ordered(json: JsonView)
    ensures
        is_canonical(canonical(json)),
    decreases json,
{
    match json {
        JsonView::Array(items) => {
            let all = canonical_items(items);
            assert forall|i: int| 0 <= i < all.len() implies is_canonical(#[trigger] all[i]) by {
                lemma_items_length(items);
                lemma_canonical_at(items, i);
                canonical_forms_are_ordered(items[i]);
            }
        },
        JsonView::Object(members) => {
            let inner = canonical_members(members);
            let all = arranged(inner);
            lemma_arranged_ordered(inner);
            assert forall|i: int| 0 <= i < all.len() implies is_canonical(
                (#[trigger] all[i]).value,
            ) by {
                lemma_arranged_from(inner, i);
                let at = choose|at: int| 0 <= at < inner.len() && inner[at] == all[i];
                lemma_members_length(members);
                lemma_canonical_member_at(members, at);
                canonical_forms_are_ordered(members[at].value);
            }
        },
        _ => {},
    }
}

proof fn lemma_items_length(items: Seq<JsonView>)
    ensures
        canonical_items(items).len() == items.len(),
{
    if items.len() > 0 {
        lemma_canonical_at(items, 0);
    }
}

proof fn lemma_members_length(members: Seq<MemberView>)
    ensures
        canonical_members(members).len() == members.len(),
{
    if members.len() > 0 {
        lemma_canonical_member_at(members, 0);
    }
}

/// Members in order stay as they are.
proof fn lemma_arranged_stays(members: Seq<MemberView>)
    requires
        members_ordered(members),
    ensures
        arranged(members) == members,
    decreases members.len(),
{
    if members.len() > 0 {
        let before = members.drop_last();
        let last = members.len() - 1;
        assert forall|i: int, j: int| 0 <= i < j < before.len() implies text_before(
            (#[trigger] before[i]).key,
            (#[trigger] before[j]).key,
        ) by {
            assert(before[i] == members[i] && before[j] == members[j]);
        }
        lemma_arranged_stays(before);
        if before.len() > 0 {
            assert(before.last() == members[last - 1]);
            assert(text_before(members[last - 1].key, members[last].key));
        }
        assert(place_of(before, members.last().key) == before.len());
        assert(before.insert(before.len() as int, members.last()) =~= members);
    } else {
        assert(arranged(members) =~= members);
    }
}

/// A canonical value is its own canonical form: bringing a value into order twice is the same as
/// once.
pub proof fn canonical_forms_stay(json: JsonView)
    requires
        is_canonical(json),
    ensures
        canonical(json) == json,
    decreases json,
{
    match json {
        JsonView::Array(items) => {
            lemma_items_length(items);
            assert forall|i: int| 0 <= i < items.len() implies canonical_items(items)[i]
                == #[trigger] items[i] by {
                lemma_canonical_at(items, i);
                canonical_forms_stay(items[i]);
            }
            assert(canonical_items(items) =~= items);
        },
        JsonView::Object(members) => {
            lemma_members_length(members);
            assert forall|i: int| 0 <= i < members.len() implies canonical_members(members)[i]
                == #[trigger] members[i] by {
                lemma_canonical_member_at(members, i);
                canonical_forms_stay(members[i].value);
            }
            assert(canonical_members(members) =~= members);
            lemma_arranged_stays(members);
        },
        _ => {},
    }
}

/// No two members have the same key.
pub open spec fn keys_unique(members: Seq<MemberView>) -> bool {
    forall|i: int, j: int|
        0 <= i < j < members.len() ==> (#[trigger] members[i]).key != (#[trigger] members[j]).key
}

/// Members with keys of their own are all kept.
proof fn lemma_arranged_keeps(members: Seq<MemberView>, at: int)
    requires
        keys_unique(members),
        0 <= at < members.len(),
    ensures
        arranged(members).contains(members[at]),
    decreases members.len(),
{
    let before = members.drop_last();
    let sorted = arranged(before);
    let last = members.len() - 1;
    assert(members[last] == members.last());
    assert forall|i: int, j: int| 0 <= i < j < before.len() implies (#[trigger] before[i]).key != (
    #[trigger] before[j]).key by {
        assert(before[i] == members[i] && before[j] == members[j]);
    }
    lemma_arranged_ordered(before);
    lemma_place(sorted, members.last().key);
    let place = place_of(sorted, members.last().key);
    let all = arranged(members);
    if at == last {
        assert(all[place] == members[at]);
    } else {
        lemma_arranged_keeps(before, at);
        let i = choose|i: int| 0 <= i < sorted.len() && sorted[i] == before[at];
        if place < sorted.len() && sorted[place].key == members.last().key {
            lemma_arranged_from(before, place);
            let twin = choose|twin: int| 0 <= twin < before.len() && before[twin] == sorted[place];
            assert(members[twin].key == members[last].key);
        } else if i < place {
            assert(all[i] == members[at]);
        } else {
            assert(all[i + 1] == members[at]);
        }
    }
}

/// There is one way to put members in order.
proof fn lemma_order_is_unique(left: Seq<MemberView>, right: Seq<MemberView>)
    requires
        members_ordered(left),
        members_ordered(right),
        forall|member: MemberView| left.contains(member) <==> right.contains(member),
    ensures
        left == right,
    decreases left.len(),
{
    if left.len() == 0 {
        if right.len() > 0 {
            assert(right.contains(right[0]));
        }
        assert(left =~= right);
    } else {
        assert(left.contains(left[0]));
        let last_left = left[left.len() - 1];
        assert(left.contains(last_left));
        let in_right = choose|i: int| 0 <= i < right.len() && right[i] == last_left;
        let last_right = right[right.len() - 1];
        assert(right.contains(last_right));
        let in_left = choose|i: int| 0 <= i < left.len() && left[i] == last_right;
        assert(in_right == right.len() - 1) by {
            if in_right < right.len() - 1 {
                assert(text_before(right[in_right].key, right[right.len() - 1].key));
                if in_left < left.len() - 1 {
                    assert(text_before(left[in_left].key, left[left.len() - 1].key));
                }
                lemma_text_order(last_left.key, last_right.key);
            }
        }
        let shorter_left = left.drop_last();
        let shorter_right = right.drop_last();
        assert forall|i: int, j: int| 0 <= i < j < shorter_left.len() implies text_before(
            (#[trigger] shorter_left[i]).key,
            (#[trigger] shorter_left[j]).key,
        ) by {
            assert(shorter_left[i] == left[i] && shorter_left[j] == left[j]);
        }
        assert forall|i: int, j: int| 0 <= i < j < shorter_right.len() implies text_before(
            (#[trigger] shorter_right[i]).key,
            (#[trigger] shorter_right[j]).key,
        ) by {
            assert(shorter_right[i] == right[i] && shorter_right[j] == right[j]);
        }
        assert forall|member: MemberView|
            shorter_left.contains(member) <==> shorter_right.contains(member) by {
            if shorter_left.contains(member) {
                let i = choose|i: int| 0 <= i < shorter_left.len() && shorter_left[i] == member;
                assert(left[i] == member);
                assert(left.contains(member));
                assert(text_before(left[i].key, left[left.len() - 1].key));
                lemma_text_order(member.key, last_left.key);
                let j = choose|j: int| 0 <= j < right.len() && right[j] == member;
                assert(shorter_right[j] == member);
            }
            if shorter_right.contains(member) {
                let i = choose|i: int| 0 <= i < shorter_right.len() && shorter_right[i] == member;
                assert(right[i] == member);
                assert(right.contains(member));
                assert(text_before(right[i].key, right[right.len() - 1].key));
                lemma_text_order(member.key, last_right.key);
                let j = choose|j: int| 0 <= j < left.len() && left[j] == member;
                assert(shorter_left[j] == member);
            }
        }
        lemma_order_is_unique(shorter_left, shorter_right);
        assert(left =~= shorter_left.push(last_left));
        assert(right =~= shorter_right.push(last_right));
    }
}

/// The order in which the members of an object were added does not show in what is written.
pub proof fn documents_are_order_free(left: Seq<MemberView>, right: Seq<MemberView>)
    requires
        keys_unique(left),
        keys_unique(right),
        forall|member: MemberView| left.contains(member) <==> right.contains(member),
    ensures
        canonical(JsonView::Object(left)) == canonical(JsonView::Object(right)),
        document_bytes(JsonView::Object(left)) == document_bytes(JsonView::Object(right)),
{
    let first = canonical_members(left);
    let second = canonical_members(right);
    lemma_canonical_unique(left);
    lemma_canonical_unique(right);
    assert forall|member: MemberView|
        arranged(first).contains(member) <==> arranged(second).contains(member) by {
        if arranged(first).contains(member) {
            lemma_same_members(left, right, member);
        }
        if arranged(second).contains(member) {
            lemma_same_members(right, left, member);
        }
    }
    lemma_arranged_ordered(first);
    lemma_arranged_ordered(second);
    lemma_order_is_unique(arranged(first), arranged(second));
}

proof fn lemma_canonical_unique(members: Seq<MemberView>)
    requires
        keys_unique(members),
    ensures
        keys_unique(canonical_members(members)),
{
    let all = canonical_members(members);
    lemma_members_length(members);
    assert forall|i: int, j: int| 0 <= i < j < all.len() implies (#[trigger] all[i]).key != (
    #[trigger] all[j]).key by {
        lemma_canonical_member_at(members, i);
        lemma_canonical_member_at(members, j);
        assert(members[i].key != members[j].key);
    }
}

proof fn lemma_same_members(left: Seq<MemberView>, right: Seq<MemberView>, member: MemberView)
    requires
        keys_unique(right),
        keys_unique(canonical_members(right)),
        forall|member: MemberView| left.contains(member) ==> right.contains(member),
        arranged(canonical_members(left)).contains(member),
    ensures
        arranged(canonical_members(right)).contains(member),
{
    let first = canonical_members(left);
    let second = canonical_members(right);
    let i = choose|i: int| 0 <= i < arranged(first).len() && arranged(first)[i] == member;
    lemma_arranged_from(first, i);
    let j = choose|j: int| 0 <= j < first.len() && first[j] == member;
    lemma_members_length(left);
    lemma_canonical_member_at(left, j);
    assert(left.contains(left[j]));
    let k = choose|k: int| 0 <= k < right.len() && right[k] == left[j];
    lemma_members_length(right);
    lemma_canonical_member_at(right, k);
    lemma_arranged_keeps(second, k);
}

/// Writing in order loses nothing and adds nothing: an object keeps each of its members, an array
/// its values in their order, and any other value is left as it is.
pub proof fn canonical_forms_keep_everything(
    members: Seq<MemberView>,
    items: Seq<JsonView>,
    at: int,
)
    requires
        keys_unique(members),
    ensures
        canonical(JsonView::Object(members)) matches JsonView::Object(kept) && {
            &&& 0 <= at < members.len() ==> kept.contains(
                (MemberView { key: members[at].key, value: canonical(members[at].value) }),
            )
            &&& 0 <= at < kept.len() ==> exists|i: int|
                0 <= i < members.len() && (#[trigger] members[i]).key == kept[at].key && canonical(
                    members[i].value,
                ) == kept[at].value
        },
        canonical(JsonView::Array(items)) matches JsonView::Array(kept) && kept.len() == items.len()
            && (0 <= at < items.len() ==> kept[at] == canonical(items[at])),
{
    let all = canonical_members(members);
    lemma_members_length(members);
    lemma_items_length(items);
    lemma_canonical_unique(members);
    if 0 <= at < members.len() {
        lemma_canonical_member_at(members, at);
        lemma_arranged_keeps(all, at);
    }
    if 0 <= at < arranged(all).len() {
        lemma_arranged_from(all, at);
        let i = choose|i: int| 0 <= i < all.len() && all[i] == arranged(all)[at];
        lemma_canonical_member_at(members, i);
        assert(members[i].key == arranged(all)[at].key);
    }
    if 0 <= at < items.len() {
        lemma_canonical_at(items, at);
    }
}

/// Values that hold no others are written as they are.
pub proof fn scalars_are_canonical(json: JsonView)
    requires
        !(json is Array),
        !(json is Object),
    ensures
        canonical(json) == json,
{
}

/// A document ends with one line feed behind its value, which is written in order.
pub proof fn documents_end_with_a_line_feed(json: JsonView)
    ensures
        document_bytes(json) is Ok <==> pretty_written(canonical(json)) is Ok,
        document_bytes(json) matches Ok(bytes) ==> bytes.len() > 0 && bytes.last() == 10
            && pretty_written(canonical(json)) == Ok::<Seq<u8>, Seq<char>>(bytes.drop_last()),
{
    if let Ok(bytes) = document_bytes(json) {
        assert(bytes.drop_last() =~= pretty_written(canonical(json))->Ok_0);
    }
}

} // verus!
