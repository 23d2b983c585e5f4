//! Which entries a walk through a directory tree passes over.

use crate::string_manip::chars_of;
use vstd::prelude::*;

verus! {

/// Whether an entry is shown: the root of the walk always is, and below it
/// every entry whose name does not start with a full stop. An entry whose
/// name is no text is not shown.
pub open spec fn shown(file_name: Option<Seq<char>>, depth: nat) -> bool {
    match file_name {
        Some(name) => depth == 0 || !(name.len() > 0 && name[0] == '.'),
        None => false,
    }
}

/// Whether the entry with this name, `depth` levels below the root of the
/// walk, is shown. `file_name` is `None` where the name is not valid Unicode.
pub fn is_not_hidden(file_name: Option<&str>, depth: usize) -> (visible: bool)
    ensures
        visible == shown(
            match file_name {
                Some(name) => Some(name@),
                None => None,
            },
            depth as nat,
        ),
{
    match file_name {
        Some(name) => {
            if depth == 0 {
                true
            } else {
                let chars = chars_of(name);
                !(chars.len() > 0 && chars[0] == '.')
            }
        },
        None => false,
    }
}

/// Whether `name` is the name of a JSON file.
pub open spec fn is_json_name(name: Seq<char>) -> bool {
    name.len() >= 5 && name.skip(name.len() - 5) == seq!['.', 'j', 's', 'o', 'n']
}

/// Whether a file is a JSON file that was modified within the last day:
/// its name ends in `.json`, and fewer than 86400 seconds have passed since
/// it was modified.
pub fn is_recent_json(file_name: &str, seconds_since_modified: u64) -> (recent: bool)
    ensures
        recent == (is_json_name(file_name@) && seconds_since_modified < 86400),
{
    let chars = chars_of(file_name);
    let n = chars.len();
    if n < 5 {
        return false;
    }
    let ghost tail = chars@.skip(n - 5);
    let ends = chars[n - 5] == '.' && chars[n - 4] == 'j' && chars[n - 3] == 's' && chars[n - 2]
        == 'o' && chars[n - 1] == 'n';
    proof {
        assert(tail[0] == chars@[n - 5] && tail[1] == chars@[n - 4] && tail[2] == chars@[n - 3]
            && tail[3] == chars@[n - 2] && tail[4] == chars@[n - 1]);
        if ends {
            assert(tail =~= seq!['.', 'j', 's', 'o', 'n']);
        }
    }
    ends && seconds_since_modified < 86400
}

/// Whether an entry of a directory is a file that was modified within the
/// last 24 hours.
pub fn is_recent_file(is_file: bool, seconds_since_modified: u64) -> (recent: bool)
    ensures
        recent == (is_file && seconds_since_modified < 24 * 3600),
{
    seconds_since_modified < 24 * 3600 && is_file
}

/// The texts of `names`.
pub open spec fn texts(names: Seq<String>) -> Seq<Seq<char>> {
    Seq::new(names.len(), |i: int| names[i]@)
}

/// How often `name` occurs in `names`.
pub open spec fn occurrences(names: Seq<Seq<char>>, name: Seq<char>) -> nat
    decreases names.len(),
{
    if names.len() == 0 {
        0
    } else {
        occurrences(names.drop_last(), name) + if names.last() == name {
            1nat
        } else {
            0nat
        }
    }
}

/// The names that occur more than once in `names`, each where it occurs for
/// the second time.
pub open spec fn duplicates(names: Seq<Seq<char>>) -> Seq<Seq<char>>
    decreases names.len(),
{
    if names.len() == 0 {
        seq![]
    } else {
        let before = names.drop_last();
        if occurrences(before, names.last()) == 1 {
            duplicates(before).push(names.last())
        } else {
            duplicates(before)
        }
    }
}

/// How often `name` occurs among the first `upto` of `names`.
pub fn count_before(names: &Vec<String>, upto: usize, name: &String) -> (count: usize)
    requires
        upto <= names.len(),
    ensures
        count == occurrences(texts(names@).take(upto as int), name@),
{
    let mut count: usize = 0;
    let mut i: usize = 0;
    proof {
        assert(texts(names@).take(0) =~= Seq::<Seq<char>>::empty());
    }
    while i < upto
        invariant
            i <= upto <= names.len(),
            count <= i,
            count == occurrences(texts(names@).take(i as int), name@),
        decreases upto - i,
    {
        proof {
            let next = texts(names@).take(i + 1);
            assert(next.drop_last() =~= texts(names@).take(i as int));
            assert(next.last() == names@[i as int]@);
        }
        if names[i] == *name {
            count = count + 1;
        }
        i = i + 1;
    }
    count
}

/// The file names that were seen before, each at its second occurrence in
/// `names`.
pub fn find_duplicates(names: &Vec<String>) -> (twice: Vec<String>)
    ensures
        texts(twice@) == duplicates(texts(names@)),
{
    let mut twice: Vec<String> = Vec::new();
    let mut i: usize = 0;
    proof {
        assert(texts(names@).take(0) =~= Seq::<Seq<char>>::empty());
        assert(texts(twice@) =~= Seq::<Seq<char>>::empty());
    }
    while i < names.len()
        invariant
            i <= names.len(),
            texts(twice@) == duplicates(texts(names@).take(i as int)),
        decreases names.len() - i,
    {
        let ghost before = twice@;
        proof {
            let next = texts(names@).take(i + 1);
            assert(next.drop_last() =~= texts(names@).take(i as int));
            assert(next.last() == names@[i as int]@);
        }
        if count_before(names, i, &names[i]) == 1 {
            let name = names[i].clone();
            twice.push(name);
            proof {
                assert(texts(twice@) =~= texts(before).push(names@[i as int]@));
            }
        }
        i = i + 1;
    }
    proof {
        assert(texts(names@).take(names.len() as int) =~= texts(names@));
    }
    twice
}

} // verus!
