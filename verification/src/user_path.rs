//! Adding the program's folder to the user's `PATH` variable once.
use vstd::prelude::*;

use crate::text::{
    concat, eq_ascii_ci, eq_ignore_ascii_case, split_char, split_on, trim_chars, trim_class,
    trim_end_chars, trim_end_class, views, CharClass,
};

verus! {

/// A folder as `PATH` entries are compared: without surrounding white space
/// and without trailing backslashes.
pub open spec fn cleaned(s: Seq<char>) -> Seq<char> {
    trim_end_class(trim_class(s, CharClass::WhiteSpace), CharClass::Backslash)
}

/// Some `;`-separated entry of `path` names `dir`, up to ASCII case.
pub open spec fn path_has_dir(path: Seq<char>, dir: Seq<char>) -> bool {
    exists|i: int|
        0 <= i < split_char(path, ';').len() && eq_ascii_ci(
            cleaned(#[trigger] split_char(path, ';')[i]),
            cleaned(dir),
        )
}

/// The `PATH` value with `dir` appended.
pub open spec fn appended_path(path: Seq<char>, dir: Seq<char>) -> Seq<char> {
    if path.len() == 0 {
        dir
    } else {
        path + ";"@ + dir
    }
}

fn clean(s: &str) -> (r: String)
    ensures
        r@ == cleaned(s@),
{
    let t = trim_chars(s, CharClass::WhiteSpace);
    trim_end_chars(t.as_str(), CharClass::Backslash)
}

/// The new value of the `PATH` variable `current` once `exe_dir` is added,
/// or `None` when one of its entries already names that folder.
pub fn path_with_dir(current: &str, exe_dir: &str) -> (r: Option<String>)
    ensures
        path_has_dir(current@, exe_dir@) ==> r is None,
        !path_has_dir(current@, exe_dir@) ==> (r matches Some(p) && p@ == appended_path(
            current@,
            exe_dir@,
        )),
{
    let entries = split_on(current, ';');
    let target = clean(exe_dir);
    let mut i: usize = 0;
    while i < entries.len()
        invariant
            i <= entries@.len(),
            views(entries@) == split_char(current@, ';'),
            target@ == cleaned(exe_dir@),
            forall|j: int|
                0 <= j < i ==> !eq_ascii_ci(cleaned(#[trigger] split_char(current@, ';')[j]), cleaned(exe_dir@)),
        decreases entries@.len() - i,
    {
        let entry = clean(entries[i].as_str());
        proof {
            assert(views(entries@)[i as int] == entries@[i as int]@);
        }
        if eq_ignore_ascii_case(entry.as_str(), target.as_str()) {
            return None;
        }
        i = i + 1;
    }
    if current.is_empty() {
        Some(crate::text::owned(exe_dir))
    } else {
        let with_sep = concat(current, ";");
        Some(concat(with_sep.as_str(), exe_dir))
    }
}

proof fn lemma_eq_ascii_ci_refl(a: Seq<char>)
    ensures
        eq_ascii_ci(a, a),
{
}

/// Once the folder is added, the new `PATH` names it, so a second run adds
/// nothing (for a folder without `;` in its name).
pub proof fn lemma_added_dir_is_found(path: Seq<char>, dir: Seq<char>)
    requires
        !dir.contains(';'),
    ensures
        path_has_dir(appended_path(path, dir), dir),
{
    reveal_strlit(";");
    lemma_eq_ascii_ci_refl(cleaned(dir));
    if path.len() == 0 {
        crate::text::lemma_split_char_single(dir, ';');
        assert(split_char(dir, ';')[0] == dir);
    } else {
        assert(path + ";"@ + dir =~= path.push(';') + dir);
        crate::text::lemma_split_char_append(path, dir, ';');
        let parts = split_char(path.push(';') + dir, ';');
        assert(parts[parts.len() - 1] == dir);
    }
}

} // verus!
