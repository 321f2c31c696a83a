//! Sections in first-encounter order.
//!
//! Rows carry a group label; interfaces with sections show each group once,
//! in the order in which the groups first appear, and inside a group keep the
//! order of the rows.

use crate::domain::RegisterDef;
use crate::text::same;
use vstd::prelude::*;

verus! {

/// Section label of registers without a group.
pub const UNGROUPED_LABEL: &'static str = "Other";

/// The texts that a list of strings holds.
pub open spec fn texts(v: Seq<String>) -> Seq<Seq<char>> {
    v.map_values(|s: String| s@)
}

/// The labels of `groups` without repetition, in the order in which each
/// first occurs.
pub open spec fn distinct(groups: Seq<Seq<char>>) -> Seq<Seq<char>>
    decreases groups.len(),
{
    if groups.len() == 0 {
        Seq::empty()
    } else {
        let before = distinct(groups.drop_last());
        if before.contains(groups.last()) {
            before
        } else {
            before.push(groups.last())
        }
    }
}

/// The group label of a definition.
pub open spec fn group_label(def: RegisterDef) -> Seq<char> {
    match def.group {
        Some(group) => group@,
        None => UNGROUPED_LABEL@,
    }
}

/// The last of `registers` with the given name.
pub open spec fn last_definition(registers: Seq<RegisterDef>, name: Seq<char>) -> Option<
    RegisterDef,
>
    decreases registers.len(),
{
    if registers.len() == 0 {
        None
    } else if registers.last().name@ == name {
        Some(registers.last())
    } else {
        last_definition(registers.drop_last(), name)
    }
}

/// The group label of the register named `name`; a name that is not in the
/// catalogue has no group.
pub open spec fn group_named(registers: Seq<RegisterDef>, name: Seq<char>) -> Seq<char> {
    match last_definition(registers, name) {
        Some(def) => group_label(def),
        None => UNGROUPED_LABEL@,
    }
}

/// Every group is listed, none twice, and nothing else.
pub proof fn law_distinct_lists_each_once(groups: Seq<Seq<char>>)
    ensures
        distinct(groups).no_duplicates(),
        forall|g: Seq<char>| distinct(groups).contains(g) <==> groups.contains(g),
    decreases groups.len(),
{
    if groups.len() > 0 {
        let rest = groups.drop_last();
        let last = groups.last();
        let before = distinct(rest);
        law_distinct_lists_each_once(rest);
        let all = distinct(groups);
        assert forall|g: Seq<char>| all.contains(g) <==> groups.contains(g) by {
            if groups.contains(g) {
                let i = choose|i: int| 0 <= i < groups.len() && groups[i] == g;
                if i < rest.len() {
                    assert(rest[i] == g);
                    assert(rest.contains(g));
                    assert(before.contains(g));
                    let j = choose|j: int| 0 <= j < before.len() && before[j] == g;
                    assert(all[j] == g);
                } else if before.contains(last) {
                    assert(all.contains(g));
                } else {
                    assert(all[before.len() as int] == g);
                }
            }
            if all.contains(g) {
                let j = choose|j: int| 0 <= j < all.len() && all[j] == g;
                if j < before.len() {
                    assert(before[j] == g);
                    assert(rest.contains(g));
                    let i = choose|i: int| 0 <= i < rest.len() && rest[i] == g;
                    assert(groups[i] == g);
                } else {
                    assert(groups[groups.len() - 1] == g);
                }
            }
        }
        assert forall|i: int, j: int| 0 <= i < all.len() && 0 <= j < all.len() && i
            != j implies all[i] != all[j] by {
            if i < before.len() && j < before.len() {
                assert(before[i] != before[j]);
            } else if i < before.len() {
                assert(before.contains(before[i]));
            } else {
                assert(before.contains(before[j]));
            }
        }
    }
}

/// Whether `label` is one of `labels`.
pub fn listed(labels: &Vec<String>, label: &str) -> (r: bool)
    ensures
        r == texts(labels@).contains(label@),
{
    let mut i: usize = 0;
    while i < labels.len()
        invariant
            i <= labels@.len(),
            forall|j: int| 0 <= j < i ==> (#[trigger] labels@[j])@ != label@,
        decreases labels@.len() - i,
    {
        if same(labels[i].as_str(), label) {
            assert(texts(labels@)[i as int] == label@);
            return true;
        }
        i = i + 1;
    }
    proof {
        if texts(labels@).contains(label@) {
            let j = choose|j: int|
                0 <= j < texts(labels@).len() && texts(labels@)[j] == label@;
            assert(labels@[j]@ == label@);
        }
    }
    false
}

/// The labels of `groups` without repetition, in first-encounter order.
pub fn first_seen(groups: &Vec<String>) -> (r: Vec<String>)
    ensures
        texts(r@) == distinct(texts(groups@)),
{
    let mut out: Vec<String> = Vec::new();
    let mut i: usize = 0;
    assert(texts(out@) =~= distinct(texts(groups@).take(0)));
    while i < groups.len()
        invariant
            i <= groups@.len(),
            texts(out@) == distinct(texts(groups@).take(i as int)),
        decreases groups@.len() - i,
    {
        let ghost before = out@;
        proof {
            let t = texts(groups@).take(i + 1);
            assert(t.drop_last() =~= texts(groups@).take(i as int));
            assert(t.last() == groups@[i as int]@);
        }
        if !listed(&out, groups[i].as_str()) {
            out.push(groups[i].clone());
            assert(texts(out@) =~= texts(before).push(groups@[i as int]@));
        }
        i = i + 1;
    }
    assert(texts(groups@).take(groups@.len() as int) =~= texts(groups@));
    out
}

/// The last of `registers` with the given name.
pub fn find_last_definition<'a>(registers: &'a [RegisterDef], name: &str) -> (r: Option<
    &'a RegisterDef,
>)
    ensures
        match last_definition(registers@, name@) {
            Some(d) => r matches Some(x) && *x == d,
            None => r is None,
        },
{
    let mut i: usize = registers.len();
    assert(registers@.take(i as int) =~= registers@);
    while i > 0
        invariant
            i <= registers@.len(),
            last_definition(registers@, name@) == last_definition(
                registers@.take(i as int),
                name@,
            ),
        decreases i,
    {
        let ghost rest = registers@.take(i as int);
        assert(rest.last() == registers@[i - 1]);
        if same(registers[i - 1].name.as_str(), name) {
            return Some(&registers[i - 1]);
        }
        assert(rest.drop_last() =~= registers@.take(i - 1));
        i = i - 1;
    }
    None
}

/// The group label of a definition.
pub fn group_of(def: &RegisterDef) -> (r: String)
    ensures
        r@ == group_label(*def),
{
    match &def.group {
        Some(group) => group.clone(),
        None => UNGROUPED_LABEL.to_owned(),
    }
}

/// The group label of the register named `name`.
pub fn group_of_name(registers: &[RegisterDef], name: &str) -> (r: String)
    ensures
        r@ == group_named(registers@, name@),
{
    match find_last_definition(registers, name) {
        Some(def) => group_of(def),
        None => UNGROUPED_LABEL.to_owned(),
    }
}


/// A register is in the group that its last definition names, or in "Other"
/// where that names none; a name without a definition is in "Other".
pub proof fn law_group_of_a_register(registers: Seq<RegisterDef>, name: Seq<char>, i: int)
    ensures
        0 <= i < registers.len() && registers[i].name@ == name && (forall|j: int|
            i < j < registers.len() ==> (#[trigger] registers[j]).name@ != name) ==> last_definition(
            registers,
            name,
        ) == Some(registers[i]) && group_named(registers, name) == match registers[i].group {
            Some(group) => group@,
            None => "Other"@,
        },
        (forall|j: int| 0 <= j < registers.len() ==> (#[trigger] registers[j]).name@ != name)
            ==> last_definition(registers, name) is None && group_named(registers, name)
            == "Other"@,
    decreases registers.len(),
{
    if registers.len() > 0 {
        let rest = registers.drop_last();
        law_group_of_a_register(rest, name, i);
        if 0 <= i < registers.len() - 1 && registers[i].name@ == name && (forall|j: int|
            i < j < registers.len() ==> (#[trigger] registers[j]).name@ != name) {
            assert(rest[i] == registers[i]);
            assert forall|j: int| i < j < rest.len() implies (#[trigger] rest[j]).name@ != name by {
                assert(registers[j].name@ != name);
            }
            assert(registers[registers.len() - 1].name@ != name);
        }
        if forall|j: int| 0 <= j < registers.len() ==> (#[trigger] registers[j]).name@ != name {
            assert forall|j: int| 0 <= j < rest.len() implies (#[trigger] rest[j]).name@ != name by {
                assert(registers[j].name@ != name);
            }
            assert(registers[registers.len() - 1].name@ != name);
        }
    }
}

/// Of two groups that are listed, the one that is listed first occurs first.
pub proof fn law_distinct_keeps_the_order(groups: Seq<Seq<char>>, i: int, j: int)
    requires
        0 <= i < j < distinct(groups).len(),
    ensures
        exists|p: int|
            0 <= p < groups.len() && #[trigger] groups[p] == distinct(groups)[i] && (forall|q: int|
                0 <= q <= p ==> #[trigger] groups[q] != distinct(groups)[j]),
    decreases groups.len(),
{
    let rest = groups.drop_last();
    let before = distinct(rest);
    let all = distinct(groups);
    law_distinct_lists_each_once(rest);
    law_distinct_lists_each_once(groups);
    if j < before.len() {
        law_distinct_keeps_the_order(rest, i, j);
        let p = choose|p: int|
            0 <= p < rest.len() && #[trigger] rest[p] == before[i] && (forall|q: int|
                0 <= q <= p ==> #[trigger] rest[q] != before[j]);
        assert(groups[p] == all[i]);
        assert forall|q: int| 0 <= q <= p implies #[trigger] groups[q] != all[j] by {
            assert(rest[q] != before[j]);
        }
    } else {
        assert(all[j] == groups.last());
        assert(before.contains(before[i]));
        assert(rest.contains(before[i]));
        let p = choose|p: int| 0 <= p < rest.len() && rest[p] == before[i];
        assert(groups[p] == all[i]);
        assert forall|q: int| 0 <= q <= p implies #[trigger] groups[q] != all[j] by {
            assert(rest[q] == groups[q]);
            assert(rest.contains(rest[q]));
            assert(!before.contains(groups.last()));
        }
    }
}

} // verus!
