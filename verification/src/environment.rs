//! The environment of a command: variables in order of name, each name once.
use crate::entries::{entries_map, keys_distinct, lemma_entries_have_keys, lemma_entry_at};
use crate::text::{characters, same_text};
use vstd::prelude::*;

verus! {

/// Whether one text comes before another, character by character.
pub open spec fn text_before(left: Seq<char>, right: Seq<char>) -> bool
    decreases left.len(),
{
    if right.len() == 0 {
        false
    } else if left.len() == 0 {
        true
    } else if left[0] != right[0] {
        left[0] < right[0]
    } else {
        text_before(left.skip(1), right.skip(1))
    }
}

pub proof fn lemma_text_order(left: Seq<char>, right: Seq<char>)
    ensures
        !(text_before(left, right) && text_before(right, left)),
        !text_before(left, left),
        text_before(left, right) || text_before(right, left) || left == right,
    decreases left.len(),
{
    if left.len() > 0 && right.len() > 0 {
        lemma_text_order(left.skip(1), right.skip(1));
        if left[0] == right[0] && left.skip(1) == right.skip(1) {
            assert(left =~= seq![left[0]] + left.skip(1));
            assert(right =~= seq![right[0]] + right.skip(1));
        }
    } else if left.len() == 0 && right.len() == 0 {
        assert(left =~= right);
    }
    if left.len() > 0 {
        lemma_text_order(left.skip(1), left.skip(1));
    }
}

pub proof fn lemma_text_transitive(first: Seq<char>, second: Seq<char>, third: Seq<char>)
    requires
        text_before(first, second),
        text_before(second, third),
    ensures
        text_before(first, third),
    decreases first.len(),
{
    if first.len() > 0 && first[0] == second[0] && second[0] == third[0] {
        lemma_text_transitive(first.skip(1), second.skip(1), third.skip(1));
    }
}

/// Whether one text comes before another.
pub fn comes_before(left: &str, right: &str) -> (before: bool)
    ensures
        before == text_before(left@, right@),
{
    let first = characters(left);
    let second = characters(right);
    let mut index: usize = 0;
    proof {
        assert(left@.skip(0) =~= left@);
        assert(right@.skip(0) =~= right@);
    }
    while index < first.len() && index < second.len()
        invariant
            first@ == left@,
            second@ == right@,
            index <= first@.len(),
            index <= second@.len(),
            text_before(left@, right@) == text_before(
                left@.skip(index as int),
                right@.skip(index as int),
            ),
        decreases first.len() - index,
    {
        proof {
            assert(left@.skip(index as int).skip(1) =~= left@.skip(index + 1));
            assert(right@.skip(index as int).skip(1) =~= right@.skip(index + 1));
        }
        if first[index] != second[index] {
            return first[index] < second[index];
        }
        index += 1;
    }
    index < second.len()
}

#[derive(Clone, Debug, PartialEq, Eq)]
pub struct EnvironmentVariable {
    pub name: String,
    pub value: String,
}

pub open spec fn variable_entries(variables: Seq<EnvironmentVariable>) -> Seq<
    (Seq<char>, Seq<char>),
> {
    Seq::new(variables.len(), |i: int| (variables[i].name@, variables[i].value@))
}

/// The entries are in order of name, each name once.
pub open spec fn is_ordered(entries: Seq<(Seq<char>, Seq<char>)>) -> bool {
    forall|i: int, j: int|
        0 <= i < j < entries.len() ==> text_before(#[trigger] entries[i].0, #[trigger] entries[j].0)
}

/// Variables in order of name.
#[derive(Clone, Debug, PartialEq, Eq)]
pub struct Environment {
    variables: Vec<EnvironmentVariable>,
}

impl View for Environment {
    type V = Seq<(Seq<char>, Seq<char>)>;

    closed spec fn view(&self) -> Seq<(Seq<char>, Seq<char>)> {
        variable_entries(self.variables@)
    }
}

pub proof fn lemma_ordered_distinct(entries: Seq<(Seq<char>, Seq<char>)>)
    requires
        is_ordered(entries),
    ensures
        keys_distinct(entries),
{
    assert forall|i: int, j: int| 0 <= i < j < entries.len() implies entries[i].0
        != entries[j].0 by {
        lemma_text_order(entries[i].0, entries[j].0);
    }
}

impl Environment {
    pub open spec fn wf(self) -> bool {
        is_ordered(self@)
    }

    /// No variables.
    pub fn new() -> (environment: Self)
        ensures
            environment.wf(),
            environment@ == Seq::<(Seq<char>, Seq<char>)>::empty(),
    {
        let environment = Environment { variables: Vec::new() };
        assert(environment@ =~= Seq::empty());
        environment
    }

    pub fn variables(&self) -> (variables: &[EnvironmentVariable])
        ensures
            variable_entries(variables@) == self@,
    {
        self.variables.as_slice()
    }

    /// The value of a variable.
    pub fn get(&self, name: &str) -> (value: Option<&str>)
        requires
            self.wf(),
        ensures
            match value {
                None => !entries_map(self@).contains_key(name@),
                Some(value) => entries_map(self@).contains_key(name@) && entries_map(
                    self@,
                )[name@] == value@,
            },
    {
        proof {
            lemma_ordered_distinct(self@);
            lemma_entries_have_keys(self@);
        }
        let mut index: usize = 0;
        while index < self.variables.len()
            invariant
                index <= self.variables@.len(),
                keys_distinct(self@),
                forall|i: int| 0 <= i < index ==> (#[trigger] self@[i]).0 != name@,
            decreases self.variables.len() - index,
        {
            assert(self@[index as int].0 == self.variables@[index as int].name@);
            if same_text(self.variables[index].name.as_str(), name) {
                proof {
                    lemma_entry_at(self@, index as int);
                }
                return Some(self.variables[index].value.as_str());
            }
            index += 1;
        }
        None
    }

    /// Sets a variable, in its place in the order.
    pub fn insert(&mut self, name: &str, value: &str)
        requires
            old(self).wf(),
        ensures
            final(self).wf(),
            entries_map(final(self)@) == entries_map(old(self)@).insert(name@, value@),
            final(self)@ == inserted(old(self)@, name@, value@),
    {
        let ghost before = self@;
        let mut index: usize = 0;
        while index < self.variables.len() && comes_before(
            self.variables[index].name.as_str(),
            name,
        )
            invariant
                self@ == before,
                index <= self.variables@.len(),
                forall|i: int| 0 <= i < index ==> text_before((#[trigger] before[i]).0, name@),
                place_of(before, name@, 0) == place_of(before, name@, index as int),
            decreases self.variables.len() - index,
        {
            assert(before[index as int].0 == self.variables@[index as int].name@);
            index += 1;
        }
        proof {
            if index < before.len() {
                assert(before[index as int].0 == self.variables@[index as int].name@);
            }
        }
        let replaces = index < self.variables.len() && same_text(
            self.variables[index].name.as_str(),
            name,
        );
        let variable = EnvironmentVariable { name: name.to_owned(), value: value.to_owned() };
        if replaces {
            self.variables[index] = variable;
            assert(self@ =~= before.update(index as int, (name@, value@)));
        } else {
            self.variables.insert(index, variable);
            assert(self@ =~= before.insert(index as int, (name@, value@)));
        }
        proof {
            lemma_inserted(before, name@, value@, index as int);
        }
    }

    pub fn copy(&self) -> (copy: Environment)
        ensures
            copy@ == self@,
    {
        let mut variables: Vec<EnvironmentVariable> = Vec::new();
        let mut index: usize = 0;
        while index < self.variables.len()
            invariant
                index <= self.variables@.len(),
                variables@.len() == index,
                forall|i: int|
                    0 <= i < index ==> (#[trigger] variables@[i]).name@
                        == self.variables@[i].name@ && variables@[i].value@
                        == self.variables@[i].value@,
            decreases self.variables.len() - index,
        {
            let variable = &self.variables[index];
            variables.push(
                EnvironmentVariable {
                    name: variable.name.clone(),
                    value: variable.value.clone(),
                },
            );
            index += 1;
        }
        assert(variable_entries(variables@) =~= self@);
        Environment { variables }
    }
}

/// Where a name belongs, from `at` on: behind the names that come before it.
pub open spec fn place_of(entries: Seq<(Seq<char>, Seq<char>)>, name: Seq<char>, at: int) -> int
    decreases entries.len() - at,
{
    if 0 <= at < entries.len() && text_before(entries[at].0, name) {
        place_of(entries, name, at + 1)
    } else {
        at
    }
}

/// The entries with a variable set, in its place in the order.
pub open spec fn inserted(
    entries: Seq<(Seq<char>, Seq<char>)>,
    name: Seq<char>,
    value: Seq<char>,
) -> Seq<(Seq<char>, Seq<char>)> {
    let at = place_of(entries, name, 0);
    if at < entries.len() && entries[at].0 == name {
        entries.update(at, (name, value))
    } else {
        entries.insert(at, (name, value))
    }
}

proof fn lemma_inserted(
    entries: Seq<(Seq<char>, Seq<char>)>,
    name: Seq<char>,
    value: Seq<char>,
    at: int,
)
    requires
        is_ordered(entries),
        0 <= at <= entries.len(),
        at == place_of(entries, name, 0),
        forall|i: int| 0 <= i < at ==> text_before((#[trigger] entries[i]).0, name),
        at < entries.len() ==> !text_before(entries[at].0, name),
    ensures
        is_ordered(inserted(entries, name, value)),
        entries_map(inserted(entries, name, value)) == entries_map(entries).insert(name, value),
{
    let longer = inserted(entries, name, value);
    let replaces = at < entries.len() && entries[at].0 == name;
    assert forall|i: int| at <= i < entries.len() && !(replaces && i == at) implies text_before(
        name,
        (#[trigger] entries[i]).0,
    ) by {
        lemma_text_order(entries[at].0, name);
        if i > at {
            if !replaces {
                lemma_text_transitive(name, entries[at].0, entries[i].0);
            }
        }
    }
    assert(is_ordered(longer)) by {
        assert forall|i: int, j: int| 0 <= i < j < longer.len() implies text_before(
            #[trigger] longer[i].0,
            #[trigger] longer[j].0,
        ) by {
            if replaces {
                if i != at && j != at {
                    assert(longer[i] == entries[i] && longer[j] == entries[j]);
                }
            } else {
                let before_i = if i < at {
                    i
                } else {
                    i - 1
                };
                let before_j = if j < at {
                    j
                } else {
                    j - 1
                };
                if i != at && j != at {
                    assert(longer[i] == entries[before_i] && longer[j] == entries[before_j]);
                } else if i == at {
                    assert(longer[j] == entries[before_j]);
                } else {
                    assert(longer[i] == entries[before_i]);
                }
            }
        }
    }
    lemma_ordered_distinct(entries);
    lemma_ordered_distinct(longer);
    lemma_entries_have_keys(entries);
    lemma_entries_have_keys(longer);
    let expected = entries_map(entries).insert(name, value);
    assert forall|key: Seq<char>| #[trigger]
        entries_map(longer).contains_key(key) == expected.contains_key(key) && (
    entries_map(longer).contains_key(key) ==> entries_map(longer)[key] == expected[key]) by {
        if entries_map(longer).contains_key(key) {
            let i = choose|i: int| 0 <= i < longer.len() && longer[i].0 == key;
            lemma_entry_at(longer, i);
            if i != at {
                let before = if replaces || i < at {
                    i
                } else {
                    i - 1
                };
                assert(longer[i] == entries[before]);
                lemma_entry_at(entries, before);
                lemma_text_order(key, name);
                if before < at {
                    assert(text_before(entries[before].0, name));
                } else {
                    assert(text_before(name, entries[before].0));
                    lemma_text_order(name, key);
                }
            }
        }
        if expected.contains_key(key) {
            if key == name {
                assert(longer[at].0 == key);
            } else {
                let i = choose|i: int| 0 <= i < entries.len() && entries[i].0 == key;
                let after = if replaces || i < at {
                    i
                } else {
                    i + 1
                };
                assert(longer[after] == entries[i]);
                assert(entries_map(longer).contains_key(longer[after].0));
            }
        }
    }
    assert(entries_map(longer) =~= expected);
}

proof fn lemma_place(
    entries: Seq<(Seq<char>, Seq<char>)>,
    name: Seq<char>,
    at: int,
)
    requires
        0 <= at <= entries.len(),
        forall|i: int| 0 <= i < at ==> text_before((#[trigger] entries[i]).0, name),
    ensures
        ({
            let place = place_of(entries, name, at);
            &&& at <= place <= entries.len()
            &&& forall|i: int| 0 <= i < place ==> text_before((#[trigger] entries[i]).0, name)
            &&& place < entries.len() ==> !text_before(entries[place].0, name)
        }),
    decreases entries.len() - at,
{
    if at < entries.len() && text_before(entries[at].0, name) {
        lemma_place(entries, name, at + 1);
    }
}

/// A variable that is set has its new value, every other variable keeps its own, and the
/// variables stay in order.
pub proof fn set_variables_are_found(
    entries: Seq<(Seq<char>, Seq<char>)>,
    name: Seq<char>,
    value: Seq<char>,
)
    requires
        is_ordered(entries),
    ensures
        is_ordered(inserted(entries, name, value)),
        entries_map(inserted(entries, name, value)).dom() == entries_map(entries).dom().insert(
            name,
        ),
        entries_map(inserted(entries, name, value))[name] == value,
        forall|other: Seq<char>|
            other != name && #[trigger] entries_map(entries).contains_key(other) ==> entries_map(
                inserted(entries, name, value),
            )[other] == entries_map(entries)[other],
{
    lemma_place(entries, name, 0);
    lemma_inserted(entries, name, value, place_of(entries, name, 0));
}

/// Texts are ordered by the first character in which they differ, and a text comes before every
/// longer one that begins with it.
pub proof fn texts_are_ordered_by_characters(
    shared: Seq<char>,
    left: Seq<char>,
    right: Seq<char>,
)
    ensures
        left.len() > 0 && right.len() > 0 && left[0] < right[0] ==> text_before(
            shared + left,
            shared + right,
        ),
        right.len() > 0 ==> text_before(shared, shared + right),
    decreases shared.len(),
{
    if shared.len() == 0 {
        assert(shared + left =~= left);
        assert(shared + right =~= right);
    } else {
        let rest = shared.skip(1);
        texts_are_ordered_by_characters(rest, left, right);
        assert((shared + left).skip(1) =~= rest + left);
        assert((shared + right).skip(1) =~= rest + right);
    }
}

/// Each entry is found under its key, where no key stands twice, and nothing else is found.
pub proof fn variables_are_found(
    entries: Seq<(Seq<char>, Seq<char>)>,
    name: Seq<char>,
)
    requires
        is_ordered(entries),
    ensures
        entries_map(entries).contains_key(name) <==> exists|i: int|
            0 <= i < entries.len() && (#[trigger] entries[i]).0 == name,
        forall|i: int|
            0 <= i < entries.len() && (#[trigger] entries[i]).0 == name ==> entries_map(
                entries,
            )[name] == entries[i].1,
{
    lemma_ordered_distinct(entries);
    lemma_entries_have_keys(entries);
    assert forall|i: int|
        0 <= i < entries.len() && (#[trigger] entries[i]).0 == name implies entries_map(
        entries,
    )[name] == entries[i].1 by {
        lemma_entry_at(entries, i);
    }
}

} // verus!
