//! The list of profiles.

use vstd::prelude::*;
use vstd::seq_lib::group_to_multiset_ensures;
use vstd::utf8::encode_utf8;

verus! {

/// A profile: the name that it is listed by, and whatever else belongs to it.
#[derive(Debug)]
pub struct Profile<T> {
    pub name: String,
    pub content: T,
}

/// The order of byte strings: that of the first bytes that differ, and a string comes
/// before those that it starts.
pub open spec fn bytes_le(a: Seq<u8>, b: Seq<u8>) -> bool
    decreases a.len(),
{
    if a.len() == 0 {
        true
    } else if b.len() == 0 {
        false
    } else if a[0] != b[0] {
        a[0] < b[0]
    } else {
        bytes_le(a.drop_first(), b.drop_first())
    }
}

/// The bytes by which a profile is sorted.
pub open spec fn sort_key<T>(profile: Profile<T>) -> Seq<u8> {
    encode_utf8(profile.name@)
}

/// A list with one more profile, behind all that may stand before it.
pub open spec fn inserted<T>(list: Seq<Profile<T>>, profile: Profile<T>) -> Seq<Profile<T>>
    decreases list.len(),
{
    if list.len() == 0 {
        seq![profile]
    } else if bytes_le(sort_key(list.last()), sort_key(profile)) {
        list.push(profile)
    } else {
        inserted(list.drop_last(), profile).push(list.last())
    }
}

/// A list of profiles sorted by name. Profiles of the same name keep their order.
pub open spec fn sorted_by_name<T>(list: Seq<Profile<T>>) -> Seq<Profile<T>>
    decreases list.len(),
{
    if list.len() == 0 {
        list
    } else {
        inserted(sorted_by_name(list.drop_last()), list.last())
    }
}

/// Does one byte string come before another one, or is it the same?
pub fn bytes_in_order(a: &[u8], b: &[u8]) -> (ordered: bool)
    ensures
        ordered == bytes_le(a@, b@),
{
    let mut i: usize = 0;
    assert(a@.skip(0) =~= a@);
    assert(b@.skip(0) =~= b@);
    while i < a.len() && i < b.len() && a[i] == b[i]
        invariant
            i <= a@.len(),
            i <= b@.len(),
            bytes_le(a@.skip(i as int), b@.skip(i as int)) == bytes_le(a@, b@),
        decreases a@.len() - i,
    {
        assert(a@.skip(i as int).drop_first() =~= a@.skip(i + 1));
        assert(b@.skip(i as int).drop_first() =~= b@.skip(i + 1));
        i += 1;
    }
    if i == a.len() {
        true
    } else if i == b.len() {
        false
    } else {
        a[i] < b[i]
    }
}

/// Inserts a profile into a list.
fn insert_profile<T>(list: &mut Vec<Profile<T>>, profile: Profile<T>)
    ensures
        final(list)@ == inserted(old(list)@, profile),
{
    let mut position: usize = list.len();
    assert(list@.take(position as int) =~= list@);
    assert(list@.skip(position as int) =~= Seq::empty());
    assert(inserted(list@.take(position as int), profile) + list@.skip(position as int) =~= inserted(
        list@,
        profile,
    ));
    while position > 0 && !bytes_in_order(
        list[position - 1].name.as_str().as_bytes(),
        profile.name.as_str().as_bytes(),
    )
        invariant
            position <= list@.len(),
            inserted(list@.take(position as int), profile) + list@.skip(position as int)
                == inserted(list@, profile),
        decreases position,
    {
        proof {
            let before = list@.take(position as int);
            assert(before.drop_last() =~= list@.take(position - 1));
            assert(inserted(list@.take(position - 1), profile) + list@.skip(position - 1)
                =~= inserted(before, profile) + list@.skip(position as int));
        }
        position -= 1;
    }
    proof {
        let before = list@.take(position as int);
        assert(inserted(before, profile) =~= before.push(profile));
        assert(before.push(profile) + list@.skip(position as int) =~= list@.insert(
            position as int,
            profile,
        ));
    }
    list.insert(position, profile);
}

/// Lists the profiles that were found, sorted by name. Where they could not be listed, that
/// error is passed on.
pub fn enumerate_profiles<T, E>(profiles: Result<Vec<Profile<T>>, E>) -> (result: Result<
    Vec<Profile<T>>,
    E,
>)
    ensures
        (match profiles {
            Ok(found) => result matches Ok(list) && list@ == sorted_by_name(found@),
            Err(error) => result == Err::<Vec<Profile<T>>, E>(error),
        }),
{
    let mut rest = match profiles {
        Err(error) => {
            return Err(error);
        },
        Ok(found) => found,
    };
    let ghost all = rest@;
    let mut list: Vec<Profile<T>> = Vec::new();
    let ghost mut done: int = 0;
    assert(all.take(0) =~= Seq::empty());
    assert(all.skip(0) =~= all);
    while rest.len() > 0
        invariant
            0 <= done <= all.len(),
            rest@ == all.skip(done),
            list@ == sorted_by_name(all.take(done)),
            profiles matches Ok(found) && found@ == all,
        decreases rest@.len(),
    {
        let profile = rest.remove(0);
        proof {
            assert(profile == all[done]);
            assert(all.take(done + 1).drop_last() =~= all.take(done));
            assert(rest@ =~= all.skip(done + 1));
            done = done + 1;
        }
        insert_profile(&mut list, profile);
    }
    assert(all.take(done) =~= all);
    Ok(list)
}

proof fn lemma_bytes_total(a: Seq<u8>, b: Seq<u8>)
    ensures
        bytes_le(a, b) || bytes_le(b, a),
        bytes_le(a, a),
    decreases a.len(),
{
    if a.len() > 0 && b.len() > 0 && a[0] == b[0] {
        lemma_bytes_total(a.drop_first(), b.drop_first());
    } else if a.len() > 0 {
        lemma_bytes_total(a.drop_first(), a.drop_first());
    }
}

proof fn lemma_bytes_transitive(a: Seq<u8>, b: Seq<u8>, c: Seq<u8>)
    requires
        bytes_le(a, b),
        bytes_le(b, c),
    ensures
        bytes_le(a, c),
    decreases a.len(),
{
    if a.len() > 0 && b.len() > 0 && c.len() > 0 && a[0] == b[0] && b[0] == c[0] {
        lemma_bytes_transitive(a.drop_first(), b.drop_first(), c.drop_first());
    }
}

/// Is a list in the order of the names?
pub open spec fn in_order<T>(list: Seq<Profile<T>>) -> bool {
    forall|i: int, j: int|
        0 <= i <= j < list.len() ==> bytes_le(
            sort_key(#[trigger] list[i]),
            sort_key(#[trigger] list[j]),
        )
}

/// Inserting keeps a list in order, and adds just the profile.
proof fn lemma_inserted<T>(list: Seq<Profile<T>>, profile: Profile<T>)
    requires
        in_order(list),
    ensures
        in_order(inserted(list, profile)),
        inserted(list, profile).to_multiset() == list.to_multiset().insert(profile),
        inserted(list, profile).len() == list.len() + 1,
        forall|i: int|
            0 <= i < inserted(list, profile).len() ==> list.contains(
                #[trigger] inserted(list, profile)[i],
            ) || inserted(list, profile)[i] == profile,
    decreases list.len(),
{
    broadcast use group_to_multiset_ensures;

    let result = inserted(list, profile);
    if list.len() == 0 {
        assert(result =~= Seq::<Profile<T>>::empty().push(profile));
        assert(list =~= Seq::<Profile<T>>::empty());
        lemma_bytes_total(sort_key(profile), sort_key(profile));
    } else if bytes_le(sort_key(list.last()), sort_key(profile)) {
        assert forall|i: int, j: int| 0 <= i <= j < result.len() implies bytes_le(
            sort_key(#[trigger] result[i]),
            sort_key(#[trigger] result[j]),
        ) by {
            lemma_bytes_total(sort_key(profile), sort_key(profile));
            if i < list.len() && j == list.len() {
                assert(bytes_le(sort_key(list[i]), sort_key(list[list.len() - 1])));
                lemma_bytes_transitive(
                    sort_key(list[i]),
                    sort_key(list.last()),
                    sort_key(profile),
                );
            }
        }
    } else {
        let front = list.drop_last();
        lemma_inserted(front, profile);
        let shorter = inserted(front, profile);
        assert(list =~= front.push(list.last()));
        assert(result.to_multiset() =~= list.to_multiset().insert(profile));
        assert forall|i: int|
            0 <= i < result.len() implies list.contains(
            #[trigger] result[i],
        ) || result[i] == profile by {
            if i < shorter.len() {
                assert(shorter[i] == result[i]);
                if front.contains(shorter[i]) {
                    let k = choose|k: int| 0 <= k < front.len() && front[k] == shorter[i];
                    assert(list[k] == result[i]);
                }
            } else {
                assert(result[i] == list[list.len() - 1]);
            }
        }
        assert forall|i: int, j: int| 0 <= i <= j < result.len() implies bytes_le(
            sort_key(#[trigger] result[i]),
            sort_key(#[trigger] result[j]),
        ) by {
            lemma_bytes_total(sort_key(list.last()), sort_key(profile));
            lemma_bytes_total(sort_key(list.last()), sort_key(list.last()));
            if i < shorter.len() && j == shorter.len() {
                assert(shorter[i] == result[i]);
                if front.contains(shorter[i]) {
                    let k = choose|k: int| 0 <= k < front.len() && front[k] == shorter[i];
                    assert(bytes_le(sort_key(list[k]), sort_key(list[list.len() - 1])));
                }
            } else if j < shorter.len() {
                assert(shorter[i] == result[i] && shorter[j] == result[j]);
            }
        }
    }
}

/// The sorted list is in the order of the names and holds the same profiles.
pub proof fn law_profiles_are_sorted<T>(list: Seq<Profile<T>>)
    ensures
        in_order(sorted_by_name(list)),
        sorted_by_name(list).to_multiset() == list.to_multiset(),
        sorted_by_name(list).len() == list.len(),
    decreases list.len(),
{
    broadcast use group_to_multiset_ensures;

    if list.len() > 0 {
        let front = list.drop_last();
        law_profiles_are_sorted(front);
        lemma_inserted(sorted_by_name(front), list.last());
        assert(list =~= front.push(list.last()));
    }
}

/// The profiles of one name, in the order of the list.
pub open spec fn namesakes<T>(list: Seq<Profile<T>>, name: Seq<char>) -> Seq<Profile<T>>
    decreases list.len(),
{
    if list.len() == 0 {
        list
    } else if list.last().name@ == name {
        namesakes(list.drop_last(), name).push(list.last())
    } else {
        namesakes(list.drop_last(), name)
    }
}

proof fn lemma_inserted_namesakes<T>(list: Seq<Profile<T>>, profile: Profile<T>, name: Seq<char>)
    ensures
        namesakes(inserted(list, profile), name) == namesakes(list.push(profile), name),
    decreases list.len(),
{
    assert(list.push(profile).drop_last() =~= list);
    if list.len() == 0 {
        assert(seq![profile] =~= list.push(profile));
    } else if !bytes_le(sort_key(list.last()), sort_key(profile)) {
        let front = list.drop_last();
        lemma_inserted_namesakes(front, profile, name);
        assert(front.push(profile).drop_last() =~= front);
        assert(inserted(front, profile).push(list.last()).drop_last() =~= inserted(front, profile));
        lemma_bytes_total(sort_key(profile), sort_key(profile));
        reveal_with_fuel(namesakes, 3);
    }
}

/// Sorting is stable: profiles of the same name keep the order in which they were found.
pub proof fn law_sorting_is_stable<T>(list: Seq<Profile<T>>, name: Seq<char>)
    ensures
        namesakes(sorted_by_name(list), name) == namesakes(list, name),
    decreases list.len(),
{
    if list.len() > 0 {
        let front = list.drop_last();
        law_sorting_is_stable(front, name);
        lemma_inserted_namesakes(sorted_by_name(front), list.last(), name);
        let longer = sorted_by_name(front).push(list.last());
        assert(longer.drop_last() =~= sorted_by_name(front));
    }
}

/// The first bytes that differ decide, so the order of the names is total: of two names,
/// one comes first, and only equal byte strings come before each other.
pub proof fn law_order_is_total(a: Seq<u8>, b: Seq<u8>)
    ensures
        bytes_le(a, b) || bytes_le(b, a),
        bytes_le(a, b) && bytes_le(b, a) ==> a == b,
    decreases a.len(),
{
    lemma_bytes_total(a, b);
    if a.len() > 0 && b.len() > 0 && a[0] == b[0] {
        law_order_is_total(a.drop_first(), b.drop_first());
        if a.drop_first() == b.drop_first() {
            assert(a =~= seq![a[0]] + a.drop_first());
            assert(b =~= seq![b[0]] + b.drop_first());
        }
    } else if a.len() == 0 && b.len() == 0 {
        assert(a =~= b);
    }
}

/// The first bytes that differ decide: of two byte strings that agree before a position, the
/// one with the smaller byte there comes strictly before the other.
pub proof fn law_first_difference_decides(a: Seq<u8>, b: Seq<u8>, k: int)
    requires
        0 <= k < a.len(),
        k < b.len(),
        a.take(k) == b.take(k),
        a[k] < b[k],
    ensures
        bytes_le(a, b),
        !bytes_le(b, a),
    decreases k,
{
    if k > 0 {
        assert(a[0] == a.take(k)[0]);
        assert(b[0] == b.take(k)[0]);
        assert(a.drop_first().take(k - 1) =~= a.take(k).drop_first());
        assert(b.drop_first().take(k - 1) =~= b.take(k).drop_first());
        law_first_difference_decides(a.drop_first(), b.drop_first(), k - 1);
    }
}

/// A byte string comes before those that it starts, and strictly so before longer ones.
pub proof fn law_prefix_comes_first(a: Seq<u8>, rest: Seq<u8>)
    ensures
        bytes_le(a, a + rest),
        bytes_le(a + rest, a) <==> rest.len() == 0,
    decreases a.len(),
{
    if a.len() > 0 {
        assert((a + rest).drop_first() =~= a.drop_first() + rest);
        law_prefix_comes_first(a.drop_first(), rest);
    }
}

/// The profiles are listed by the bytes of their names: where the name of one that is listed
/// earlier first differs from that of one that is listed later, it has the smaller byte, and
/// where one of the names starts the other, the shorter one is listed earlier.
pub proof fn law_profiles_are_listed_by_name<T>(list: Seq<Profile<T>>, i: int, j: int, k: int)
    requires
        0 <= i < j < list.len(),
        0 <= k,
        encode_utf8(sorted_by_name(list)[i].name@).len() >= k,
        encode_utf8(sorted_by_name(list)[j].name@).len() >= k,
        encode_utf8(sorted_by_name(list)[i].name@).take(k) == encode_utf8(
            sorted_by_name(list)[j].name@,
        ).take(k),
    ensures
        sorted_by_name(list).len() == list.len(),
        ({
            let earlier = encode_utf8(sorted_by_name(list)[i].name@);
            let later = encode_utf8(sorted_by_name(list)[j].name@);
            &&& k < earlier.len() && k < later.len() ==> earlier[k] <= later[k]
            &&& k == later.len() ==> k == earlier.len()
        }),
{
    law_profiles_are_sorted(list);
    let sorted = sorted_by_name(list);
    let earlier = encode_utf8(sorted[i].name@);
    let later = encode_utf8(sorted[j].name@);
    assert(bytes_le(sort_key(sorted[i]), sort_key(sorted[j])));
    if k < earlier.len() && k < later.len() && later[k] < earlier[k] {
        law_first_difference_decides(later, earlier, k);
    }
    if k == later.len() && k < earlier.len() {
        assert(later.take(k) =~= later);
        assert(earlier =~= later + earlier.skip(k));
        law_prefix_comes_first(later, earlier.skip(k));
    }
}

/// Profiles of the same name are listed in the order in which they were found.
pub proof fn law_namesakes_keep_their_order<T>(list: Seq<Profile<T>>, name: Seq<char>)
    ensures
        sorted_by_name(list).filter(|profile: Profile<T>| profile.name@ == name) == list.filter(
            |profile: Profile<T>| profile.name@ == name,
        ),
{
    law_sorting_is_stable(list, name);
    lemma_namesakes_filter(list, name);
    lemma_namesakes_filter(sorted_by_name(list), name);
}

proof fn lemma_namesakes_filter<T>(list: Seq<Profile<T>>, name: Seq<char>)
    ensures
        namesakes(list, name) == list.filter(|profile: Profile<T>| profile.name@ == name),
    decreases list.len(),
{
    reveal(Seq::filter);
    if list.len() > 0 {
        lemma_namesakes_filter(list.drop_last(), name);
    }
}

/// A call for the list of profiles gives the profiles that were found, each as often as it was
/// found, by the bytes of their names, and in the order of finding where the names are the same.
/// An error is passed on.
pub proof fn law_profiles_are_given<T, E>(
    found: Vec<Profile<T>>,
    error: E,
    name: Seq<char>,
    result: Result<Vec<Profile<T>>, E>,
    refused: Result<Vec<Profile<T>>, E>,
)
    requires
        call_ensures(enumerate_profiles::<T, E>, (Ok::<Vec<Profile<T>>, E>(found),), result),
        call_ensures(enumerate_profiles::<T, E>, (Err::<Vec<Profile<T>>, E>(error),), refused),
    ensures
        refused == Err::<Vec<Profile<T>>, E>(error),
        result matches Ok(list) && {
            &&& list@.to_multiset() == found@.to_multiset()
            &&& forall|i: int, j: int|
                0 <= i < j < list@.len() ==> bytes_le(
                    encode_utf8((#[trigger] list@[i]).name@),
                    encode_utf8((#[trigger] list@[j]).name@),
                )
            &&& list@.filter(|profile: Profile<T>| profile.name@ == name) == found@.filter(
                |profile: Profile<T>| profile.name@ == name,
            )
        },
{
    law_profiles_are_sorted(found@);
    let list = sorted_by_name(found@);
    assert forall|i: int, j: int| 0 <= i < j < list.len() implies bytes_le(
        encode_utf8((#[trigger] list[i]).name@),
        encode_utf8((#[trigger] list[j]).name@),
    ) by {
        assert(bytes_le(sort_key(list[i]), sort_key(list[j])));
    }
    law_namesakes_keep_their_order(found@, name);
}

} // verus!
