use vstd::prelude::*;

verus! {

/// `needle` occurs in `hay` as a run of consecutive characters.
pub open spec fn contains_text(hay: Seq<char>, needle: Seq<char>) -> bool {
    exists|i: int| 0 <= i && i + needle.len() <= hay.len() && #[trigger] hay.subrange(i, i + needle.len()) == needle
}

/// Whether `needle` occurs in `hay`.
pub fn contains_str(hay: &str, needle: &str) -> (r: bool)
    ensures
        r == contains_text(hay@, needle@),
{
    let n = hay.unicode_len();
    let m = needle.unicode_len();
    if m > n {
        return false;
    }
    if m == 0 {
        assert(hay@.subrange(0int, 0int + needle@.len()) == needle@);
        return true;
    }
    let target = String::from_str(needle);
    let mut i: usize = 0;
    while i <= n - m
        invariant
            n == hay@.len(),
            m == needle@.len(),
            1 <= m <= n,
            i <= n - m + 1,
            target@ == needle@,
            forall|j: int| 0 <= j < i ==> #[trigger] hay@.subrange(j, j + m) != needle@,
        decreases n - m + 1 - i,
    {
        let window = String::from_str(hay.substring_char(i, i + m));
        if window == target {
            assert(hay@.subrange(i as int, i as int + needle@.len()) == needle@);
            return true;
        }
        i = i + 1;
    }
    assert forall|j: int| 0 <= j && j + needle@.len() <= hay@.len() implies #[trigger] hay@.subrange(
        j,
        j + needle@.len(),
    ) != needle@ by {
        assert(j <= n - m);
    }
    false
}

/// Position of the first device whose name was read and is `wanted`.
pub open spec fn first_named(names: Seq<Option<Seq<char>>>, wanted: Seq<char>, k: int) -> bool {
    &&& 0 <= k < names.len()
    &&& names[k] == Some(wanted)
    &&& forall|j: int| 0 <= j < k ==> names[j] != Some(wanted)
}

/// Whether a device name marks a monitor source (the audio a sound server
/// plays, offered as an input): it holds `.monitor` or `Monitor`.
pub open spec fn is_monitor_name(name: Seq<char>) -> bool {
    contains_text(name, ".monitor"@) || contains_text(name, "Monitor"@)
}

pub open spec fn monitor_at(names: Seq<Option<Seq<char>>>, k: int) -> bool {
    match names[k] {
        Some(n) => is_monitor_name(n),
        None => false,
    }
}

pub open spec fn names_view(names: Seq<Option<String>>) -> Seq<Option<Seq<char>>> {
    names.map_values(
        |s: Option<String>|
            match s {
                Some(t) => Some(t@),
                None => None,
            },
    )
}

/// Finds the input device called `wanted` among the devices' names, in the
/// order the host lists them (`None` where a name could not be read): the
/// first match, or `None` when no device has that name.
pub fn find_named_device(names: &Vec<Option<String>>, wanted: &str) -> (r: Option<usize>)
    ensures
        match r {
            Some(k) => first_named(names_view(names@), wanted@, k as int),
            None => forall|j: int| 0 <= j < names@.len() ==> names_view(names@)[j] != Some(wanted@),
        },
{
    let ghost nv = names_view(names@);
    let target = String::from_str(wanted);
    let mut i: usize = 0;
    while i < names.len()
        invariant
            nv == names_view(names@),
            target@ == wanted@,
            i <= names@.len(),
            forall|j: int| 0 <= j < i ==> nv[j] != Some(wanted@),
        decreases names@.len() - i,
    {
        match &names[i] {
            Some(n) => {
                if *n == target {
                    return Some(i);
                }
            },
            None => {},
        }
        i = i + 1;
    }
    None
}

/// Finds the first monitor source among the devices' names (`None` where a
/// name could not be read), or `None` when there is none.
pub fn find_monitor_device(names: &Vec<Option<String>>) -> (r: Option<usize>)
    ensures
        match r {
            Some(k) => {
                &&& k < names@.len()
                &&& monitor_at(names_view(names@), k as int)
                &&& forall|j: int| 0 <= j < k ==> !monitor_at(names_view(names@), j)
            },
            None => forall|j: int| 0 <= j < names@.len() ==> !monitor_at(names_view(names@), j),
        },
{
    let ghost nv = names_view(names@);
    let mut i: usize = 0;
    while i < names.len()
        invariant
            nv == names_view(names@),
            i <= names@.len(),
            forall|j: int| 0 <= j < i ==> !monitor_at(nv, j),
        decreases names@.len() - i,
    {
        match &names[i] {
            Some(n) => {
                if contains_str(n.as_str(), ".monitor") || contains_str(n.as_str(), "Monitor") {
                    return Some(i);
                }
            },
            None => {},
        }
        i = i + 1;
    }
    None
}

} // verus!
