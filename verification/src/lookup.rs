//! Finding objects and properties by name: the first of that name counts.

use vstd::prelude::*;

use crate::ast::{
    Object, ObjectView, Property, PropertyView, Value, ValueView, objects_view, properties_view,
};
use crate::text::same_text;

verus! {

/// Whether `i` is the position of the first entry of `names` that is `name`.
pub open spec fn is_first(names: Seq<Seq<char>>, name: Seq<char>, i: int) -> bool {
    &&& 0 <= i < names.len()
    &&& names[i] == name
    &&& forall|j: int| 0 <= j < i ==> names[j] != name
}

/// The position of the first entry of `names` that is `name`, if there is one.
pub open spec fn first_index(names: Seq<Seq<char>>, name: Seq<char>) -> Option<int>
    decreases names.len(),
{
    if names.len() == 0 {
        None
    } else {
        match first_index(names.drop_last(), name) {
            Some(i) => Some(i),
            None => if names.last() == name {
                Some(names.len() - 1)
            } else {
                None
            },
        }
    }
}

/// `first_index` finds a position exactly when `name` occurs, and then it is
/// the first one.
pub proof fn first_index_is_first(names: Seq<Seq<char>>, name: Seq<char>)
    ensures
        match first_index(names, name) {
            Some(i) => is_first(names, name, i),
            None => forall|j: int| 0 <= j < names.len() ==> names[j] != name,
        },
    decreases names.len(),
{
    if names.len() > 0 {
        let front = names.drop_last();
        first_index_is_first(front, name);
        assert(forall|j: int| 0 <= j < front.len() ==> front[j] == names[j]);
        match first_index(front, name) {
            Some(i) => {
                assert(front[i] == names[i]);
            },
            None => {
                assert forall|j: int| 0 <= j < names.len() - 1 implies names[j] != name by {
                    assert(front[j] != name);
                }
            },
        }
    }
}

/// The first position is the only one that `is_first` accepts.
pub proof fn is_first_unique(names: Seq<Seq<char>>, name: Seq<char>, i: int)
    requires
        is_first(names, name, i),
    ensures
        first_index(names, name) == Some(i),
{
    first_index_is_first(names, name);
    let found = first_index(names, name);
    if found is Some {
        let k = found->0;
        if k < i {
            assert(names[k] != name);
        } else if i < k {
            assert(names[i] != name);
        }
    }
}

/// The names of a list of objects, in order.
pub open spec fn object_names(items: Seq<ObjectView>) -> Seq<Seq<char>> {
    items.map_values(|o: ObjectView| o.name)
}

/// The names of a list of properties, in order.
pub open spec fn property_names(properties: Seq<PropertyView>) -> Seq<Seq<char>> {
    properties.map_values(|p: PropertyView| p.name)
}

/// Where the property `property` of the object `object` stands: the first
/// object of that name and, in it, the first property of that name.
pub open spec fn cell_of(items: Seq<ObjectView>, object: Seq<char>, property: Seq<char>) -> Option<
    (int, int),
> {
    match first_index(object_names(items), object) {
        Some(i) => match first_index(property_names(items[i].properties), property) {
            Some(j) => Some((i, j)),
            None => None,
        },
        None => None,
    }
}

/// The value that the scene declares for the property `property` of the
/// object `object`.
pub open spec fn base_value(items: Seq<ObjectView>, object: Seq<char>, property: Seq<char>) -> Option<
    ValueView,
> {
    match cell_of(items, object, property) {
        Some((i, j)) => Some(items[i].properties[j].value),
        None => None,
    }
}

/// The value of the first property called `name`, whatever its type.
pub open spec fn first_value(properties: Seq<PropertyView>, name: Seq<char>) -> Option<ValueView> {
    match first_index(property_names(properties), name) {
        Some(j) => Some(properties[j].value),
        None => None,
    }
}

/// The position of the first object called `name`.
pub fn find_object(items: &Vec<Object>, name: &str) -> (found: Option<usize>)
    ensures
        match found {
            Some(i) => first_index(object_names(objects_view(items@)), name@) == Some(i as int),
            None => first_index(object_names(objects_view(items@)), name@) is None,
        },
{
    let ghost names = object_names(objects_view(items@));
    let mut i: usize = 0;
    while i < items.len()
        invariant
            i <= items.len(),
            names == object_names(objects_view(items@)),
            forall|j: int| 0 <= j < i ==> names[j] != name@,
        decreases items.len() - i,
    {
        if same_text(items[i].name.as_str(), name) {
            proof {
                is_first_unique(names, name@, i as int);
            }
            return Some(i);
        }
        i += 1;
    }
    proof {
        first_index_is_first(names, name@);
    }
    None
}

/// The position of the first property called `name`.
pub fn find_property(properties: &Vec<Property>, name: &str) -> (found: Option<usize>)
    ensures
        match found {
            Some(j) => first_index(property_names(properties_view(properties@)), name@) == Some(
                j as int,
            ),
            None => first_index(property_names(properties_view(properties@)), name@) is None,
        },
{
    let ghost names = property_names(properties_view(properties@));
    let mut j: usize = 0;
    while j < properties.len()
        invariant
            j <= properties.len(),
            names == property_names(properties_view(properties@)),
            forall|k: int| 0 <= k < j ==> names[k] != name@,
        decreases properties.len() - j,
    {
        if same_text(properties[j].name.as_str(), name) {
            proof {
                is_first_unique(names, name@, j as int);
            }
            return Some(j);
        }
        j += 1;
    }
    proof {
        first_index_is_first(names, name@);
    }
    None
}

/// Where the property `property` of the object `object` stands in `items`.
pub fn find_cell(items: &Vec<Object>, object: &str, property: &str) -> (found: Option<
    (usize, usize),
>)
    ensures
        match found {
            Some((i, j)) => cell_of(objects_view(items@), object@, property@) == Some(
                (i as int, j as int),
            ) && i < items.len() && j < items@[i as int].properties.len(),
            None => cell_of(objects_view(items@), object@, property@) is None,
        },
{
    match find_object(items, object) {
        Some(i) => {
            proof {
                first_index_is_first(object_names(objects_view(items@)), object@);
            }
            match find_property(&items[i].properties, property) {
                Some(j) => {
                    proof {
                        first_index_is_first(
                            property_names(properties_view(items@[i as int].properties@)),
                            property@,
                        );
                    }
                    Some((i, j))
                },
                None => None,
            }
        },
        None => None,
    }
}

/// The value of the first property called `name`.
pub fn first_property<'a>(properties: &'a Vec<Property>, name: &str) -> (found: Option<&'a Value>)
    ensures
        match found {
            Some(value) => first_value(properties_view(properties@), name@) == Some(value@),
            None => first_value(properties_view(properties@), name@) is None,
        },
{
    match find_property(properties, name) {
        Some(j) => {
            proof {
                first_index_is_first(property_names(properties_view(properties@)), name@);
            }
            Some(&properties[j].value)
        },
        None => None,
    }
}

/// The value of the last property called `name`, whatever its type: where a
/// name is given twice, the later entry overrides the earlier.
pub open spec fn last_value(properties: Seq<PropertyView>, name: Seq<char>) -> Option<ValueView>
    decreases properties.len(),
{
    if properties.len() == 0 {
        None
    } else if properties.last().name == name {
        Some(properties.last().value)
    } else {
        last_value(properties.drop_last(), name)
    }
}

/// The value of the last property called `name`.
pub fn last_property<'a>(properties: &'a Vec<Property>, name: &str) -> (found: Option<&'a Value>)
    ensures
        match found {
            Some(value) => last_value(properties_view(properties@), name@) == Some(value@),
            None => last_value(properties_view(properties@), name@) is None,
        },
{
    let ghost all = properties_view(properties@);
    let mut j: usize = properties.len();
    assert(all.take(j as int) =~= all);
    while j > 0
        invariant
            j <= properties.len(),
            all == properties_view(properties@),
            last_value(all, name@) == last_value(all.take(j as int), name@),
        decreases j,
    {
        j -= 1;
        proof {
            assert(all.take(j + 1).drop_last() =~= all.take(j as int));
            assert(all.take(j + 1).last() == properties@[j as int]@);
        }
        if same_text(properties[j].name.as_str(), name) {
            return Some(&properties[j].value);
        }
    }
    None
}

/// Where names are unique, the first and the last property of a name are the
/// same one.
pub proof fn unique_names_first_is_last(properties: Seq<PropertyView>, name: Seq<char>)
    requires
        forall|i: int, j: int|
            0 <= i < j < properties.len() ==> properties[i].name != properties[j].name,
    ensures
        first_value(properties, name) == last_value(properties, name),
    decreases properties.len(),
{
    if properties.len() > 0 {
        let front = properties.drop_last();
        let n = properties.len() - 1;
        assert forall|i: int, j: int| 0 <= i < j < front.len() implies front[i].name
            != front[j].name by {
            assert(front[i] == properties[i] && front[j] == properties[j]);
        }
        unique_names_first_is_last(front, name);
        assert(property_names(properties).drop_last() =~= property_names(front));
        first_index_is_first(property_names(front), name);
        if properties.last().name == name {
            match first_index(property_names(front), name) {
                Some(i) => {
                    assert(property_names(front)[i] == front[i].name);
                    assert(front[i] == properties[i]);
                    assert(properties[i].name != properties[n].name);
                },
                None => {},
            }
        } else {
            match first_index(property_names(front), name) {
                Some(i) => {
                    assert(front[i] == properties[i]);
                },
                None => {},
            }
        }
    }
}

/// Different properties stand in different places: a place in the scene
/// belongs to one pair of names only.
pub proof fn cells_tell_targets_apart(
    items: Seq<ObjectView>,
    first: (Seq<char>, Seq<char>),
    second: (Seq<char>, Seq<char>),
)
    requires
        cell_of(items, first.0, first.1) is Some,
        cell_of(items, first.0, first.1) == cell_of(items, second.0, second.1),
    ensures
        first == second,
{
    first_index_is_first(object_names(items), first.0);
    first_index_is_first(object_names(items), second.0);
    let i = first_index(object_names(items), first.0)->0;
    first_index_is_first(property_names(items[i].properties), first.1);
    first_index_is_first(property_names(items[i].properties), second.1);
}

} // verus!
