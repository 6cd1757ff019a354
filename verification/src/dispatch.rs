//! Assembling a composed command line's mounts, dropping, rather than
//! panicking on, an import that cannot be mounted; flattening the one
//! bundle, if any, mounted under the compiled binary's own name; and the
//! refusal lines the dispatcher writes.

use vstd::prelude::*;
use vstd::string::*;

use crate::name::{is_usable_name, Name};
use crate::outcome::Failure;
use crate::task::{keys, Task};
use crate::text::{owned, same_text, texts};

verus! {

/// The message for an imported command that cannot be mounted, with no
/// prefix of its own.
pub open spec fn mount_refusal_text(name: Seq<char>) -> Seq<char> {
    "`"@ + name
        + "` collides with an earlier import, or is not a usable name; dropped from this command line — run `regenerate` to fix its generated file"@
}

/// The one line written for a refusal: `<binary_name>: <message>`.
pub open spec fn refusal_line_text(binary_name: Seq<char>, message: Seq<char>) -> Seq<char> {
    binary_name + ": "@ + message
}

/// The message written when an imported command can't be mounted: its name
/// collides with a name already assembled, or is not a usable name.
pub fn mount_refusal(name: &str) -> (message: String)
    ensures
        message@ == mount_refusal_text(name@),
{
    let mut message = owned("`");
    message.append(name);
    message.append(
        "` collides with an earlier import, or is not a usable name; dropped from this command line — run `regenerate` to fix its generated file",
    );
    message
}

/// Builds the one line written to stderr for a refusal, the one place the
/// `<binary_name>: ` prefix is added.
pub fn refusal_line(binary_name: &str, message: &str) -> (line: String)
    ensures
        line@ == refusal_line_text(binary_name@, message@),
{
    let mut line = owned(binary_name);
    line.append(": ");
    line.append(message);
    line
}

/// Whether an import named `name` is dropped when `kept` is what has been
/// assembled before it: its name is already assembled, or is not usable.
pub open spec fn is_dropped(kept: Seq<Seq<char>>, name: Seq<char>) -> bool {
    kept.contains(name) || !is_usable_name(name)
}

/// The mounts assembling `imported` keeps, in order: each import whose name
/// is usable and not already kept.
pub open spec fn assembled_mounts<T>(imported: Seq<(&'static str, T)>) -> Seq<(&'static str, T)>
    decreases imported.len(),
{
    if imported.len() == 0 {
        Seq::empty()
    } else {
        let kept = assembled_mounts(imported.drop_last());
        if is_dropped(keys(kept), imported.last().0@) {
            kept
        } else {
            kept.push(imported.last())
        }
    }
}

/// The refusal lines assembling `imported` writes, in order: one for each
/// import it drops.
pub open spec fn assembly_refusals<T>(binary_name: Seq<char>, imported: Seq<(&'static str, T)>) -> Seq<
    Seq<char>,
>
    decreases imported.len(),
{
    if imported.len() == 0 {
        Seq::empty()
    } else {
        let refusals = assembly_refusals(binary_name, imported.drop_last());
        let name = imported.last().0@;
        if is_dropped(keys(assembled_mounts(imported.drop_last())), name) {
            refusals.push(refusal_line_text(binary_name, mount_refusal_text(name)))
        } else {
            refusals
        }
    }
}

/// Whether `name` is one of the keys of `mounts`.
fn has_key<T>(mounts: &Vec<(&'static str, T)>, name: &str) -> (found: bool)
    ensures
        found == keys(mounts@).contains(name@),
{
    let mut index: usize = 0;
    while index < mounts.len()
        invariant
            index <= mounts@.len(),
            forall|j: int| 0 <= j < index ==> keys(mounts@)[j] != name@,
        decreases mounts@.len() - index,
    {
        if same_text(mounts[index].0, name) {
            assert(keys(mounts@)[index as int] == name@);
            return true;
        }
        index += 1;
    }
    false
}

/// Assembles `imported` into one command line, in order, dropping, rather
/// than panicking on, an import whose name is not usable or collides with a
/// name already assembled. Returns the mounts kept and, for the caller to
/// write to stderr, one refusal line per import dropped.
pub fn assemble<T>(binary_name: &str, imported: Vec<(&'static str, T)>) -> (assembled: (
    Vec<(&'static str, T)>,
    Vec<String>,
))
    ensures
        assembled.0@ == assembled_mounts(imported@),
        texts(assembled.1@) == assembly_refusals(binary_name@, imported@),
        forall|k: int|
            0 <= k < assembled.0@.len() ==> (first_named(imported@, (#[trigger] assembled.0@[k]).0@)
                matches Some(j) && imported@[j] == assembled.0@[k]),
        forall|j: int|
            0 <= j < imported@.len() && is_usable_name((#[trigger] imported@[j]).0@) ==> keys(
                assembled.0@,
            ).contains(imported@[j].0@),
{
    proof {
        assembling_keeps_the_first_import_of_each_name(imported@);
    }
    let mut tasks: Vec<(&'static str, T)> = Vec::new();
    let mut refusals: Vec<String> = Vec::new();
    let ghost given = imported@;
    let ghost mut done: Seq<(&'static str, T)> = Seq::empty();
    for item in it: imported
        invariant
            it.seq() == given,
            done == it.history(),
            tasks@ == assembled_mounts(it.history()),
            texts(refusals@) == assembly_refusals(binary_name@, it.history()),
    {
        let ghost before = it.history();
        let name = item.0;
        let already_present = has_key(&tasks, name);
        let usable = Name::new(name).is_ok();
        assert(it.history().push(item).drop_last() =~= before);
        if already_present || !usable {
            let line = refusal_line(binary_name, mount_refusal(name).as_str());
            let ghost previous = refusals@;
            let ghost text = line@;
            refusals.push(line);
            assert(texts(refusals@) =~= texts(previous).push(text));
        } else {
            tasks.push(item);
        }
        proof {
            done = done.push(item);
        }
    }
    assert(done =~= given);
    (tasks, refusals)
}


/// The refusal for a plain task mounted under the bin's own name.
pub open spec fn leaf_under_bin_name_text(binary_name: Seq<char>) -> Seq<char> {
    "`"@ + binary_name + "` is mounted under `"@ + binary_name
        + "`, the name this command line was built as, so it is this command line's top level — but it is not a bundle. Make it one with `Task::group`, or mount it under another name."@
}

/// The refusal for a bundle child whose name another top-level mount
/// already has.
pub open spec fn flatten_collision_text(binary_name: Seq<char>, name: Seq<char>) -> Seq<char> {
    "`"@ + name
        + "` would be a top-level command of this command line twice: once from the bundle mounted under `"@
        + binary_name + "`, the name this command line was built as, and once mounted under `"@
        + name + "` itself. Rename the bundle's child, or mount that task under another name."@
}

/// The refusal for a top-level command named `help`.
pub open spec fn help_collision_text() -> Seq<char> {
    "`help` would be a top-level command of this command line twice: once as this mount, and once as the `help` command clap gives every command that has subcommands. Mount it under another name."@
}

/// The index of the first of `children` whose name one of `others` already
/// has, if any.
pub open spec fn first_collision(children: Seq<Seq<char>>, others: Seq<Seq<char>>) -> Option<int>
    decreases children.len(),
{
    if children.len() == 0 {
        None
    } else {
        match first_collision(children.drop_last(), others) {
            Some(index) => Some(index),
            None => if others.contains(children.last()) {
                Some(children.len() - 1)
            } else {
                None
            },
        }
    }
}

/// The names a bundle's children are mounted under, in order.
pub open spec fn child_names<H>(children: Seq<(&'static str, Task<H>)>) -> Seq<&'static str> {
    children.map_values(|child: (&'static str, Task<H>)| child.0)
}

/// What flattening `mounts` for a command line built as `binary_name`
/// produces: the final top level and the names promoted to it, or the text
/// of the refusal.
///
/// The first mount whose key is `binary_name` is replaced, in its own
/// place, by its children; it must be a bundle, and none of its children may
/// share a name with another mount. With no such mount the list is left as
/// it is. Either way, a top level that would answer to `help` is refused.
pub open spec fn flattened<H>(binary_name: Seq<char>, mounts: Seq<(&'static str, Task<H>)>) -> Result<
    (Seq<(&'static str, Task<H>)>, Seq<&'static str>),
    Seq<char>,
> {
    match keys(mounts).index_of_first(binary_name) {
        None => if keys(mounts).contains("help"@) {
            Err(help_collision_text())
        } else {
            Ok((mounts, Seq::empty()))
        },
        Some(index) => {
            let rest = mounts.remove(index);
            match mounts[index].1.spec_children() {
                None => Err(leaf_under_bin_name_text(binary_name)),
                Some(children) => match first_collision(keys(children), keys(rest)) {
                    Some(child) => Err(flatten_collision_text(binary_name, keys(children)[child])),
                    None => {
                        let spliced = rest.take(index) + children + rest.skip(index);
                        if keys(spliced).contains("help"@) {
                            Err(help_collision_text())
                        } else {
                            Ok((spliced, child_names(children)))
                        }
                    },
                },
            }
        },
    }
}

/// What [`flatten`] produces: the final top-level mount list, and the names,
/// if any, it promoted from a bundle mounted under the binary's own name.
pub struct TopLevel<H> {
    pub mounts: Vec<(&'static str, Task<H>)>,
    pub flattened: Vec<&'static str>,
}

/// The refusal for a plain (non-bundle) task mounted under the key equal to
/// the compiled binary's own name.
pub fn leaf_under_bin_name_refusal(binary_name: &str) -> (failure: Failure)
    ensures
        failure@ == (leaf_under_bin_name_text(binary_name@), None::<Seq<char>>),
{
    let mut message = owned("`");
    message.append(binary_name);
    message.append("` is mounted under `");
    message.append(binary_name);
    message.append(
        "`, the name this command line was built as, so it is this command line's top level — but it is not a bundle. Make it one with `Task::group`, or mount it under another name.",
    );
    Failure::from_message(message)
}

/// The refusal for a bundle's child whose name already matches another
/// top-level mount key.
pub fn flatten_collision_refusal(binary_name: &str, name: &str) -> (failure: Failure)
    ensures
        failure@ == (flatten_collision_text(binary_name@, name@), None::<Seq<char>>),
{
    let mut message = owned("`");
    message.append(name);
    message.append(
        "` would be a top-level command of this command line twice: once from the bundle mounted under `",
    );
    message.append(binary_name);
    message.append("`, the name this command line was built as, and once mounted under `");
    message.append(name);
    message.append("` itself. Rename the bundle's child, or mount that task under another name.");
    Failure::from_message(message)
}

/// The refusal for a top-level command named `help`.
pub fn help_collision_refusal() -> (failure: Failure)
    ensures
        failure@ == (help_collision_text(), None::<Seq<char>>),
{
    Failure::new(
        "`help` would be a top-level command of this command line twice: once as this mount, and once as the `help` command clap gives every command that has subcommands. Mount it under another name.",
    )
}

/// Refuses when any of `children`'s names already names one of
/// `surrounding_mounts`, naming the first such child.
fn ensure_no_flatten_collision<H>(
    binary_name: &str,
    surrounding_mounts: &Vec<(&'static str, Task<H>)>,
    children: &Vec<(&'static str, Task<H>)>,
) -> (outcome: Result<(), Failure>)
    ensures
        match first_collision(keys(children@), keys(surrounding_mounts@)) {
            None => outcome is Ok,
            Some(child) => outcome matches Err(failure) && failure@ == (
                flatten_collision_text(binary_name@, keys(children@)[child]),
                None::<Seq<char>>,
            ),
        },
{
    let ghost names = keys(children@);
    let ghost others = keys(surrounding_mounts@);
    let mut index: usize = 0;
    while index < children.len()
        invariant
            index <= children@.len(),
            names == keys(children@),
            others == keys(surrounding_mounts@),
            first_collision(names.take(index as int), others) is None,
        decreases children@.len() - index,
    {
        let child_name = children[index].0;
        assert(names.take(index + 1).drop_last() =~= names.take(index as int));
        if has_key(surrounding_mounts, child_name) {
            assert(first_collision(names.take(index + 1), others) == Some(index as int));
            proof {
                lemma_first_collision_prefix(names, others, index + 1);
            }
            return Err(flatten_collision_refusal(binary_name, child_name));
        }
        index += 1;
    }
    assert(names.take(index as int) =~= names);
    Ok(())
}

/// A collision found within a prefix is the first collision of the whole
/// list.
proof fn lemma_first_collision_prefix(names: Seq<Seq<char>>, others: Seq<Seq<char>>, length: int)
    requires
        0 <= length <= names.len(),
        first_collision(names.take(length), others) is Some,
    ensures
        first_collision(names, others) == first_collision(names.take(length), others),
    decreases names.len() - length,
{
    if length < names.len() {
        assert(names.take(length + 1).drop_last() =~= names.take(length));
        lemma_first_collision_prefix(names, others, length + 1);
    } else {
        assert(names.take(length) =~= names);
    }
}

/// The index of the first mount whose key is `name`, if any.
fn position<T>(mounts: &Vec<(&'static str, T)>, name: &str) -> (found: Option<usize>)
    ensures
        match found {
            Some(index) => keys(mounts@).index_of_first(name@) == Some(index as int),
            None => keys(mounts@).index_of_first(name@) is None,
        },
{
    let mut index: usize = 0;
    while index < mounts.len()
        invariant
            index <= mounts@.len(),
            forall|j: int| 0 <= j < index ==> keys(mounts@)[j] != name@,
        decreases mounts@.len() - index,
    {
        if same_text(mounts[index].0, name) {
            assert(keys(mounts@)[index as int] == name@);
            proof {
                keys(mounts@).index_of_first_ensures(name@);
            }
            return Some(index);
        }
        index += 1;
    }
    proof {
        keys(mounts@).index_of_first_ensures(name@);
    }
    None
}

/// The names of `children`, in order.
fn names_of<H>(children: &Vec<(&'static str, Task<H>)>) -> (names: Vec<&'static str>)
    ensures
        names@ == child_names(children@),
{
    let mut names: Vec<&'static str> = Vec::new();
    let mut index: usize = 0;
    while index < children.len()
        invariant
            index <= children@.len(),
            names@ == child_names(children@.take(index as int)),
        decreases children@.len() - index,
    {
        names.push(children[index].0);
        index += 1;
        assert(child_names(children@.take(index as int)) =~= child_names(
            children@.take(index - 1),
        ).push(children@[index - 1].0));
    }
    assert(children@.take(index as int) =~= children@);
    names
}

/// Refuses when any of `mounts`' own keys is `help`.
fn ensure_no_top_level_help<H>(mounts: &Vec<(&'static str, Task<H>)>) -> (outcome: Result<(), Failure>)
    ensures
        keys(mounts@).contains("help"@) ==> (outcome matches Err(failure) && failure@ == (
            help_collision_text(),
            None::<Seq<char>>,
        )),
        !keys(mounts@).contains("help"@) ==> outcome is Ok,
{
    if has_key(mounts, "help") {
        return Err(help_collision_refusal());
    }
    Ok(())
}

/// Splices the children of the one mount whose key equals `binary_name` into
/// its position at the top level, leaving every other mount where it was.
/// With no mount under that key the list is returned as it is, with nothing
/// promoted.
///
/// Refuses when the mount at `binary_name` is not a bundle, when flattening
/// it would give the top level two commands with one name, or when the top
/// level would answer to `help`.
pub fn flatten<H>(binary_name: &str, mounts: Vec<(&'static str, Task<H>)>) -> (top_level: Result<
    TopLevel<H>,
    Failure,
>)
    ensures
        match flattened(binary_name@, mounts@) {
            Ok((final_mounts, promoted)) => top_level matches Ok(top_level) && top_level.mounts@
                == final_mounts && top_level.flattened@ == promoted,
            Err(message) => top_level matches Err(failure) && failure@ == (
                message,
                None::<Seq<char>>,
            ),
        },
{
    let ghost given = mounts@;
    proof {
        keys(given).index_of_first_ensures(binary_name@);
    }
    let (mounts, flattened) = match position(&mounts, binary_name) {
        None => (mounts, Vec::new()),
        Some(index) => {
            let mut mounts = mounts;
            let (_, mount) = mounts.remove(index);
            let ghost rest = mounts@;
            assert(rest == given.remove(index as int));
            let children = match mount.into_children() {
                Ok(children) => children,
                Err(_leaf) => return Err(leaf_under_bin_name_refusal(binary_name)),
            };
            ensure_no_flatten_collision(binary_name, &mounts, &children)?;
            let flattened = names_of(&children);
            let mut tail = mounts.split_off(index);
            let mut children = children;
            mounts.append(&mut children);
            mounts.append(&mut tail);
            (mounts, flattened)
        },
    };
    ensure_no_top_level_help(&mounts)?;
    Ok(TopLevel { mounts, flattened })
}


/// Assembling keeps only usable names, and never two mounts with one name.
pub proof fn assembled_mounts_are_usable_and_distinct<T>(imported: Seq<(&'static str, T)>)
    ensures
        keys(assembled_mounts(imported)).no_duplicates(),
        forall|i: int|
            0 <= i < assembled_mounts(imported).len() ==> is_usable_name(
                #[trigger] keys(assembled_mounts(imported))[i],
            ),
    decreases imported.len(),
{
    if imported.len() > 0 {
        assembled_mounts_are_usable_and_distinct(imported.drop_last());
        let kept = assembled_mounts(imported.drop_last());
        if !is_dropped(keys(kept), imported.last().0@) {
            assert(keys(kept.push(imported.last())) =~= keys(kept).push(imported.last().0@));
        }
    }
}

/// `first_named` after one more entry: the earlier entries are searched
/// first, and the new one answers only when none of them has the name.
proof fn lemma_first_named_push<T>(
    entries: Seq<(&'static str, T)>,
    entry: (&'static str, T),
    name: Seq<char>,
)
    ensures
        first_named(entries.push(entry), name) == match first_named(entries, name) {
            Some(index) => Some(index),
            None => if entry.0@ == name {
                Some(entries.len() as int)
            } else {
                None
            },
        },
    decreases entries.len(),
{
    if entries.len() == 0 {
        assert(entries.push(entry)[0] == entry);
        assert(entries.push(entry).drop_first() =~= Seq::<(&'static str, T)>::empty());
        assert(first_named(Seq::<(&'static str, T)>::empty(), name) is None);
    } else {
        assert(entries.push(entry)[0] == entries[0]);
        assert(entries.push(entry).drop_first() =~= entries.drop_first().push(entry));
        lemma_first_named_push(entries.drop_first(), entry, name);
    }
}

/// Assembling keeps, for each name, the first import that carries it, and
/// only that one: every kept mount is the earliest import of its name, the
/// mounts come in the order of those first imports, and every import with a
/// usable name has its name among the mounts. So an import whose name was
/// already assembled never takes the earlier one's place.
pub proof fn assembling_keeps_the_first_import_of_each_name<T>(imported: Seq<(&'static str, T)>)
    ensures
        forall|k: int|
            0 <= k < assembled_mounts(imported).len() ==> (first_named(
                imported,
                (#[trigger] assembled_mounts(imported)[k]).0@,
            ) matches Some(j) && imported[j] == assembled_mounts(imported)[k]),
        forall|k1: int, k2: int|
            0 <= k1 < k2 < assembled_mounts(imported).len() ==> first_named(
                imported,
                (#[trigger] assembled_mounts(imported)[k1]).0@,
            )->Some_0 < first_named(imported, (#[trigger] assembled_mounts(imported)[k2]).0@)->Some_0,
        forall|j: int|
            0 <= j < imported.len() && is_usable_name((#[trigger] imported[j]).0@) ==> keys(
                assembled_mounts(imported),
            ).contains(imported[j].0@),
    decreases imported.len(),
{
    if imported.len() > 0 {
        let before = imported.drop_last();
        let entry = imported.last();
        let kept = assembled_mounts(before);
        let result = assembled_mounts(imported);
        assembling_keeps_the_first_import_of_each_name(before);
        assert(before.push(entry) =~= imported);
        assert forall|name: Seq<char>| #[trigger] first_named(imported, name) == match first_named(
            before,
            name,
        ) {
            Some(index) => Some(index),
            None => if entry.0@ == name {
                Some(before.len() as int)
            } else {
                None
            },
        } by {
            lemma_first_named_push(before, entry, name);
        }
        if is_dropped(keys(kept), entry.0@) {
            assert(result == kept);
            assert forall|k: int| 0 <= k < result.len() implies (first_named(
                imported,
                (#[trigger] result[k]).0@,
            ) matches Some(j) && imported[j] == result[k]) by {
                lemma_first_named(before, kept[k].0@);
                let j = first_named(before, kept[k].0@)->Some_0;
                assert(imported[j] == before[j]);
            }
            assert forall|k1: int, k2: int|
                0 <= k1 < k2 < result.len() implies first_named(
                imported,
                (#[trigger] result[k1]).0@,
            )->Some_0 < first_named(imported, (#[trigger] result[k2]).0@)->Some_0 by {
                lemma_first_named(before, kept[k1].0@);
                lemma_first_named(before, kept[k2].0@);
            }
            assert forall|j: int|
                0 <= j < imported.len() && is_usable_name((#[trigger] imported[j]).0@) implies keys(
                result,
            ).contains(imported[j].0@) by {
                if j < before.len() {
                    assert(imported[j] == before[j]);
                }
            }
        } else {
            assert(result == kept.push(entry));
            assert(keys(result) =~= keys(kept).push(entry.0@));
            assert(first_named(before, entry.0@) is None) by {
                lemma_first_named(before, entry.0@);
                if first_named(before, entry.0@) is Some {
                    let j = first_named(before, entry.0@)->Some_0;
                    assert(before[j].0@ == entry.0@);
                    assert(is_usable_name(before[j].0@));
                }
            }
            assert forall|k: int| 0 <= k < result.len() implies (first_named(
                imported,
                (#[trigger] result[k]).0@,
            ) matches Some(j) && imported[j] == result[k]) by {
                if k < kept.len() {
                    assert(result[k] == kept[k]);
                    lemma_first_named(before, kept[k].0@);
                    let j = first_named(before, kept[k].0@)->Some_0;
                    assert(imported[j] == before[j]);
                } else {
                    assert(result[k] == entry);
                }
            }
            assert forall|k1: int, k2: int|
                0 <= k1 < k2 < result.len() implies first_named(
                imported,
                (#[trigger] result[k1]).0@,
            )->Some_0 < first_named(imported, (#[trigger] result[k2]).0@)->Some_0 by {
                assert(result[k1] == kept[k1]);
                lemma_first_named(before, kept[k1].0@);
                if k2 < kept.len() {
                    assert(result[k2] == kept[k2]);
                }
            }
            assert forall|j: int|
                0 <= j < imported.len() && is_usable_name((#[trigger] imported[j]).0@) implies keys(
                result,
            ).contains(imported[j].0@) by {
                if j < before.len() {
                    assert(imported[j] == before[j]);
                    let i = choose|i: int| 0 <= i < keys(kept).len() && keys(kept)[i] == before[j].0@;
                    assert(keys(result)[i] == keys(kept)[i]);
                } else {
                    assert(keys(result)[kept.len() as int] == entry.0@);
                }
            }
        }
    }
}

/// Every import is either kept or answered with a refusal line of its own.
pub proof fn every_import_is_kept_or_refused<T>(
    binary_name: Seq<char>,
    imported: Seq<(&'static str, T)>,
)
    ensures
        assembled_mounts(imported).len() + assembly_refusals(binary_name, imported).len()
            == imported.len(),
    decreases imported.len(),
{
    if imported.len() > 0 {
        every_import_is_kept_or_refused(binary_name, imported.drop_last());
    }
}

/// An import list whose names are all usable and distinct is kept whole and
/// in order, with nothing refused.
pub proof fn usable_distinct_imports_are_kept_whole<T>(
    binary_name: Seq<char>,
    imported: Seq<(&'static str, T)>,
)
    requires
        keys(imported).no_duplicates(),
        forall|i: int| 0 <= i < imported.len() ==> is_usable_name(#[trigger] keys(imported)[i]),
    ensures
        assembled_mounts(imported) == imported,
        assembly_refusals(binary_name, imported) == Seq::<Seq<char>>::empty(),
    decreases imported.len(),
{
    if imported.len() > 0 {
        let before = imported.drop_last();
        assert(keys(before) =~= keys(imported).drop_last());
        assert forall|i: int| 0 <= i < before.len() implies is_usable_name(
            #[trigger] keys(before)[i],
        ) by {
            assert(keys(before)[i] == keys(imported)[i]);
        }
        usable_distinct_imports_are_kept_whole(binary_name, before);
        assert(is_usable_name(keys(imported)[imported.len() - 1]));
        assert(!keys(before).contains(imported.last().0@)) by {
            if keys(before).contains(imported.last().0@) {
                let j = choose|j: int| 0 <= j < keys(before).len() && keys(before)[j]
                    == imported.last().0@;
                assert(keys(imported)[j] == keys(imported)[imported.len() - 1]);
            }
        }
        assert(before.push(imported.last()) =~= imported);
    }
}

/// Assembling twice is assembling once: what assembling keeps is kept whole
/// by assembling it again.
pub proof fn assembling_is_idempotent<T>(binary_name: Seq<char>, imported: Seq<(&'static str, T)>)
    ensures
        assembled_mounts(assembled_mounts(imported)) == assembled_mounts(imported),
        assembly_refusals(binary_name, assembled_mounts(imported)) == Seq::<Seq<char>>::empty(),
{
    assembled_mounts_are_usable_and_distinct(imported);
    usable_distinct_imports_are_kept_whole(binary_name, assembled_mounts(imported));
}

/// With no mount under the bin's own name and none called `help`, flattening
/// keeps the mount list as it is and promotes nothing.
pub proof fn flattening_without_a_bin_mount_changes_nothing<H>(
    binary_name: Seq<char>,
    mounts: Seq<(&'static str, Task<H>)>,
)
    requires
        !keys(mounts).contains(binary_name),
        !keys(mounts).contains("help"@),
    ensures
        flattened(binary_name, mounts) == Ok::<_, Seq<char>>((mounts, Seq::<&'static str>::empty())),
{
    keys(mounts).index_of_first_ensures(binary_name);
}

/// `first_collision` finds nothing exactly when no child's name is among
/// the others.
proof fn lemma_no_collision<H>(children: Seq<Seq<char>>, others: Seq<Seq<char>>)
    ensures
        first_collision(children, others) is None <==> forall|i: int|
            0 <= i < children.len() ==> !others.contains(#[trigger] children[i]),
    decreases children.len(),
{
    if children.len() > 0 {
        let init = children.drop_last();
        lemma_no_collision::<H>(init, others);
        if forall|i: int| 0 <= i < children.len() ==> !others.contains(#[trigger] children[i]) {
            assert forall|i: int| 0 <= i < init.len() implies !others.contains(#[trigger] init[i]) by {
                assert(init[i] == children[i]);
            }
            assert(!others.contains(children[children.len() - 1]));
        }
        if first_collision(children, others) is None {
            assert forall|i: int| 0 <= i < children.len() implies !others.contains(
                #[trigger] children[i],
            ) by {
                if i < init.len() {
                    assert(init[i] == children[i]);
                }
            }
        }
    }
}

/// Flattening splices the bundle under the bin's own name into its place:
/// the mounts before it, its children in their own order, then the mounts
/// after it; and the names it promotes are exactly those children's.
pub proof fn flattening_splices_the_bundle_in_place<H>(
    binary_name: Seq<char>,
    mounts: Seq<(&'static str, Task<H>)>,
    index: int,
)
    requires
        0 <= index < mounts.len(),
        keys(mounts)[index] == binary_name,
        forall|j: int| 0 <= j < index ==> keys(mounts)[j] != binary_name,
        flattened(binary_name, mounts) is Ok,
    ensures
        mounts[index].1.spec_children() is Some,
        flattened(binary_name, mounts) == Ok::<_, Seq<char>>(
            (
                mounts.take(index) + mounts[index].1.spec_children().unwrap() + mounts.skip(
                    index + 1,
                ),
                child_names(mounts[index].1.spec_children().unwrap()),
            ),
        ),
{
    keys(mounts).index_of_first_ensures(binary_name);
    let rest = mounts.remove(index);
    assert(rest.take(index) =~= mounts.take(index));
    assert(rest.skip(index) =~= mounts.skip(index + 1));
}

/// A top level that flattening accepts never has two commands with one name
/// and never answers to `help`, when the mounts it started from had distinct
/// names and every bundle's children have distinct names, as
/// [`Task::group`] requires.
pub proof fn a_flattened_top_level_has_distinct_commands<H>(
    binary_name: Seq<char>,
    mounts: Seq<(&'static str, Task<H>)>,
)
    requires
        keys(mounts).no_duplicates(),
        forall|i: int|
            0 <= i < mounts.len() ==> ((#[trigger] mounts[i]).1.spec_children() matches Some(
                children,
            ) ==> keys(children).no_duplicates()),
    ensures
        flattened(binary_name, mounts) matches Ok((top_level, _)) ==> {
            &&& keys(top_level).no_duplicates()
            &&& !keys(top_level).contains("help"@)
        },
{
    keys(mounts).index_of_first_ensures(binary_name);
    match keys(mounts).index_of_first(binary_name) {
        None => {},
        Some(index) => {
            let rest = mounts.remove(index);
            match mounts[index].1.spec_children() {
                None => {},
                Some(children) => {
                    lemma_no_collision::<H>(keys(children), keys(rest));
                    if first_collision(keys(children), keys(rest)) is None {
                        let spliced = rest.take(index) + children + rest.skip(index);
                        let left = keys(rest.take(index));
                        let middle = keys(children);
                        let right = keys(rest.skip(index));
                        assert(keys(rest) =~= keys(mounts).remove(index));
                        assert(keys(rest).no_duplicates()) by {
                            assert forall|a: int, b: int|
                                0 <= a < keys(rest).len() && 0 <= b < keys(rest).len() && a
                                    != b implies keys(rest)[a] != keys(rest)[b] by {
                                let ma = if a < index { a } else { a + 1 };
                                let mb = if b < index { b } else { b + 1 };
                                assert(keys(rest)[a] == keys(mounts)[ma]);
                                assert(keys(rest)[b] == keys(mounts)[mb]);
                            }
                        }
                        assert(keys(spliced) =~= left + middle + right);
                        assert forall|a: int, b: int|
                            0 <= a < keys(spliced).len() && 0 <= b < keys(spliced).len() && a
                                != b implies keys(spliced)[a] != keys(spliced)[b] by {
                            let n = left.len();
                            let m = middle.len();
                            let ra = if a < n { a } else if a < n + m { -1 } else { a - m };
                            let rb = if b < n { b } else if b < n + m { -1 } else { b - m };
                            if a < n || a >= n + m {
                                assert(keys(spliced)[a] == keys(rest)[ra]);
                            } else {
                                assert(keys(spliced)[a] == middle[a - n]);
                            }
                            if b < n || b >= n + m {
                                assert(keys(spliced)[b] == keys(rest)[rb]);
                            } else {
                                assert(keys(spliced)[b] == middle[b - n]);
                            }
                            if (a < n || a >= n + m) && !(b < n || b >= n + m) {
                                assert(!keys(rest).contains(middle[b - n]));
                            }
                            if !(a < n || a >= n + m) && (b < n || b >= n + m) {
                                assert(!keys(rest).contains(middle[a - n]));
                            }
                        }
                    }
                },
            }
        },
    }
}

/// The position of the first entry named `name`, if any.
pub open spec fn first_named<T>(entries: Seq<(&'static str, T)>, name: Seq<char>) -> Option<int>
    decreases entries.len(),
{
    if entries.len() == 0 {
        None
    } else if entries[0].0@ == name {
        Some(0)
    } else {
        match first_named(entries.drop_first(), name) {
            Some(index) => Some(index + 1),
            None => None,
        }
    }
}

/// The task a parse selected: the entry of `tasks` named by the first
/// command of `path`, then, while the task reached is a bundle, its child
/// named by the next command, down to a leaf. `None` when a command names
/// no entry, or the path ends at a bundle.
pub open spec fn selected<H>(tasks: Seq<(&'static str, Task<H>)>, path: Seq<Seq<char>>) -> Option<
    Task<H>,
>
    decreases path.len(),
{
    if path.len() == 0 {
        None
    } else {
        match first_named(tasks, path[0]) {
            None => None,
            Some(index) => match tasks[index].1.spec_children() {
                None => Some(tasks[index].1),
                Some(children) => selected(children, path.drop_first()),
            },
        }
    }
}

/// Whether `task` is reached from `tasks` by following `path`'s commands:
/// some entry keyed by the first command is `task` itself, a leaf, or a
/// bundle whose children reach `task` by the rest of the commands.
pub open spec fn reached_by<H>(
    tasks: Seq<(&'static str, Task<H>)>,
    path: Seq<Seq<char>>,
    task: Task<H>,
) -> bool
    decreases path.len(),
{
    path.len() > 0 && exists|i: int|
        0 <= i < tasks.len() && (#[trigger] tasks[i]).0@ == path[0] && match tasks[i].1.spec_children() {
            None => tasks[i].1 == task,
            Some(children) => reached_by(children, path.drop_first(), task),
        }
}

/// What a parse selects is a leaf, reached by taking, at each level, an entry
/// whose key is that level's command: the top-level entry named by the first
/// command, then within each bundle the child named by the next command.
pub proof fn a_selected_task_is_the_leaf_the_commands_name<H>(
    tasks: Seq<(&'static str, Task<H>)>,
    path: Seq<Seq<char>>,
)
    ensures
        selected(tasks, path) matches Some(task) ==> task.spec_children() is None && reached_by(
            tasks,
            path,
            task,
        ),
    decreases path.len(),
{
    if path.len() > 0 {
        lemma_first_named(tasks, path[0]);
        match first_named(tasks, path[0]) {
            None => {},
            Some(index) => {
                match tasks[index].1.spec_children() {
                    None => {
                        assert(tasks[index].0@ == path[0]);
                    },
                    Some(children) => {
                        a_selected_task_is_the_leaf_the_commands_name(children, path.drop_first());
                        assert(tasks[index].0@ == path[0]);
                    },
                }
            },
        }
    }
}

/// Whether, at every level `path` passes through, the entries' keys are
/// distinct, as a bundle's children are.
pub open spec fn keys_distinct_along<H>(tasks: Seq<(&'static str, Task<H>)>, path: Seq<Seq<char>>) -> bool
    decreases path.len(),
{
    &&& keys(tasks).no_duplicates()
    &&& path.len() > 0 ==> forall|i: int|
        0 <= i < tasks.len() && (#[trigger] tasks[i]).0@ == path[0] ==> match tasks[i].1.spec_children() {
            None => true,
            Some(children) => keys_distinct_along(children, path.drop_first()),
        }
}

/// Where every level's keys are distinct, the leaf that `path`'s commands
/// name, level by level, is the one a parse selects.
pub proof fn the_leaf_the_commands_name_is_selected<H>(
    tasks: Seq<(&'static str, Task<H>)>,
    path: Seq<Seq<char>>,
    task: Task<H>,
)
    requires
        keys_distinct_along(tasks, path),
        reached_by(tasks, path, task),
        task.spec_children() is None,
    ensures
        selected(tasks, path) == Some(task),
    decreases path.len(),
{
    let i = choose|i: int|
        0 <= i < tasks.len() && (#[trigger] tasks[i]).0@ == path[0] && match tasks[i].1.spec_children() {
            None => tasks[i].1 == task,
            Some(children) => reached_by(children, path.drop_first(), task),
        };
    lemma_first_named(tasks, path[0]);
    let f = first_named(tasks, path[0])->Some_0;
    assert(keys(tasks)[f] == keys(tasks)[i]);
    assert(f == i);
    match tasks[i].1.spec_children() {
        None => {},
        Some(children) => {
            the_leaf_the_commands_name_is_selected(children, path.drop_first(), task);
        },
    }
}

/// Facts about the first entry named `name`.
proof fn lemma_first_named<T>(entries: Seq<(&'static str, T)>, name: Seq<char>)
    ensures
        match first_named(entries, name) {
            Some(index) => 0 <= index < entries.len() && entries[index].0@ == name && forall|j: int|
                0 <= j < index ==> (#[trigger] entries[j]).0@ != name,
            None => forall|j: int| 0 <= j < entries.len() ==> (#[trigger] entries[j]).0@ != name,
        },
    decreases entries.len(),
{
    if entries.len() > 0 {
        lemma_first_named(entries.drop_first(), name);
        assert forall|j: int| 1 <= j < entries.len() implies entries[j] == entries.drop_first()[j
            - 1] by {}
    }
}

/// Where `name` stands among `entries`: the first entry with that name.
fn find_named<'a, T>(entries: &'a [(&'static str, T)], name: &str) -> (found: Option<usize>)
    ensures
        match found {
            Some(index) => index < entries@.len() && first_named(entries@, name@) == Some(
                index as int,
            ),
            None => first_named(entries@, name@) is None,
        },
{
    proof {
        lemma_first_named(entries@, name@);
    }
    let mut index: usize = 0;
    while index < entries.len()
        invariant
            index <= entries@.len(),
            forall|j: int| 0 <= j < index ==> (#[trigger] entries@[j]).0@ != name@,
            match first_named(entries@, name@) {
                Some(first) => 0 <= first < entries@.len() && entries@[first].0@ == name@
                    && forall|j: int| 0 <= j < first ==> (#[trigger] entries@[j]).0@ != name@,
                None => forall|j: int|
                    0 <= j < entries@.len() ==> (#[trigger] entries@[j]).0@ != name@,
            },
        decreases entries@.len() - index,
    {
        if same_text(entries[index].0, name) {
            return Some(index);
        }
        index += 1;
    }
    None
}

/// The path's commands as text.
pub open spec fn path_texts(path: Seq<&str>) -> Seq<Seq<char>> {
    path.map_values(|command: &str| command@)
}

/// Walks `path`, the subcommands a parse selected, one per level, down
/// through `tasks` to the leaf task it reaches: one step for the top-level
/// command, then one more per level of bundle nesting, with a loop rather
/// than recursion, so nesting depth never becomes stack depth.
pub fn resolve<'a, H>(tasks: &'a [(&'static str, Task<H>)], path: &[&str]) -> (task: Option<
    &'a Task<H>,
>)
    ensures
        match selected(tasks@, path_texts(path@)) {
            Some(expected) => task matches Some(found) && *found == expected,
            None => task is None,
        },
        task matches Some(found) ==> found.spec_children() is None && reached_by(
            tasks@,
            path_texts(path@),
            *found,
        ),
        forall|leaf: Task<H>|
            #![trigger reached_by(tasks@, path_texts(path@), leaf)]
            keys_distinct_along(tasks@, path_texts(path@)) && reached_by(
                tasks@,
                path_texts(path@),
                leaf,
            ) && leaf.spec_children() is None ==> (task matches Some(found) && *found == leaf),
{
    proof {
        assert forall|leaf: Task<H>|
            #![trigger reached_by(tasks@, path_texts(path@), leaf)]
            keys_distinct_along(tasks@, path_texts(path@)) && reached_by(
                tasks@,
                path_texts(path@),
                leaf,
            ) && leaf.spec_children() is None implies selected(tasks@, path_texts(path@)) == Some(
            leaf,
        ) by {
            the_leaf_the_commands_name_is_selected(tasks@, path_texts(path@), leaf);
        }
    }
    let ghost all = path_texts(path@);
    let mut level: &'a [(&'static str, Task<H>)] = tasks;
    let mut depth: usize = 0;
    assert(all.skip(0) =~= all);
    while depth < path.len()
        invariant
            depth <= path@.len(),
            all == path_texts(path@),
            selected(tasks@, all) == selected(level@, all.skip(depth as int)),
            forall|leaf: Task<H>|
                #![trigger reached_by(tasks@, path_texts(path@), leaf)]
                keys_distinct_along(tasks@, path_texts(path@)) && reached_by(
                    tasks@,
                    path_texts(path@),
                    leaf,
                ) && leaf.spec_children() is None ==> selected(tasks@, path_texts(path@))
                    == Some(leaf),
        decreases path@.len() - depth,
    {
        assert(all.skip(depth as int)[0] == path@[depth as int]@);
        assert(all.skip(depth as int).drop_first() =~= all.skip(depth + 1));
        let index = match find_named(level, path[depth]) {
            Some(index) => index,
            None => return None,
        };
        let task = &level[index].1;
        match task.children() {
            None => {
                proof {
                    a_selected_task_is_the_leaf_the_commands_name(tasks@, all);
                }
                return Some(task);
            },
            Some(children) => {
                level = children;
            },
        }
        depth += 1;
    }
    assert(all.skip(depth as int).len() == 0);
    None
}

} // verus!
