//! What a save has to do.
//!
//! Nothing here touches a file. A save has two parts. For the first,
//! `plan_save_changes` works out the changes and the file operations that
//! carry them out; the caller performs the operations in order and stops at
//! the first that fails. For the second, `check_for_shortcut_changes` tells
//! whether the icon of some shortcut changed; where one did,
//! `rewrite_shortcuts` gives the bytes that the caller writes as the new
//! shortcuts file.

use crate::encoder::encode;
use crate::error::VdfError;
use crate::format::{encoded_value, VdfValue};
use crate::grids::{
    all_changes, can_filter_paths, filter_paths, paths_can_be_filtered, remove_marker,
    AppGridsView, ChangedPath, ChangedPathView, GridAssignments,
};
use crate::json::{json_text_at, json_text_entries, json_texts, text_of};
use crate::node::VdfNode;
use crate::shortcuts::{link_shortcut_icons, linked_root};
use crate::text::{chars_of, contains_text, has_infix, push_all, same_chars, string_of};
use vstd::prelude::*;

verus! {

/// One step of a save.
#[derive(Clone, Debug, PartialEq, Eq)]
pub enum FileOperation {
    /// Delete the file at `path`.
    Remove { path: String },
    /// Create an empty file at `path`.
    Create { path: String },
    /// Copy the bytes of the file at `source` into the file at `target`.
    Copy { source: String, target: String },
}

/// What a `FileOperation` stands for.
pub enum FileOperationView {
    Remove { path: Seq<char> },
    Create { path: Seq<char> },
    Copy { source: Seq<char>, target: Seq<char> },
}

impl DeepView for FileOperation {
    type V = FileOperationView;

    open spec fn deep_view(&self) -> FileOperationView {
        match self {
            FileOperation::Remove { path } => FileOperationView::Remove { path: path@ },
            FileOperation::Create { path } => FileOperationView::Create { path: path@ },
            FileOperation::Copy { source, target } => FileOperationView::Copy {
                source: source@,
                target: target@,
            },
        }
    }
}

/// Whether `old_path` names an image that was filed before: whether the
/// path holds the word `grid`. The empty path does not.
pub open spec fn is_filed_grid(old_path: Seq<char>) -> bool {
    contains_text(old_path, "grid"@)
}

/// The file operations that carry out one change, in order: the old image
/// is deleted first, where one was filed; then, unless the change is a
/// removal, the target is created and the source is copied into it.
pub open spec fn operations_for(change: ChangedPathView) -> Seq<FileOperationView> {
    let removal = if is_filed_grid(change.old_path) {
        seq![FileOperationView::Remove { path: change.old_path }]
    } else {
        Seq::empty()
    };
    if change.target_path == remove_marker() {
        removal
    } else {
        removal + seq![
            FileOperationView::Create { path: change.target_path },
            FileOperationView::Copy { source: change.source_path, target: change.target_path },
        ]
    }
}

/// The file operations that carry out a list of changes: those of each
/// change, in the order of the changes.
pub open spec fn operations_for_all(changes: Seq<ChangedPathView>) -> Seq<FileOperationView>
    decreases changes.len(),
{
    if changes.len() == 0 {
        Seq::empty()
    } else {
        operations_for_all(changes.drop_last()) + operations_for(changes.last())
    }
}

/// A removal deletes and does nothing else: the file operations of a
/// change whose target is the remove marker create no file and copy none.
pub proof fn lemma_removal_only_deletes(change: ChangedPathView)
    requires
        change.target_path == remove_marker(),
    ensures
        forall|i: int|
            0 <= i < operations_for(change).len() ==> #[trigger] operations_for(change)[i]
                == (FileOperationView::Remove { path: change.old_path }),
{
}

/// The old image goes before the new one comes: in the file operations of
/// a change, a deletion stands first, and nothing stands behind the copy.
pub proof fn lemma_deletion_comes_first(change: ChangedPathView)
    ensures
        forall|i: int|
            0 <= i < operations_for(change).len() && #[trigger] operations_for(change)[i]
                is Remove ==> i == 0,
        forall|i: int|
            0 <= i < operations_for(change).len() && #[trigger] operations_for(change)[i]
                is Copy ==> i == operations_for(change).len() - 1,
{
}

/// Appends the file operations of `change` to `operations`.
fn push_operations(operations: &mut Vec<FileOperation>, change: &ChangedPath)
    ensures
        final(operations).deep_view() == old(operations).deep_view() + operations_for(
            change.deep_view(),
        ),
{
    let ghost before = operations.deep_view();
    let old_path = chars_of(change.old_path.as_str());
    let word = chars_of("grid");
    if has_infix(&old_path, &word) {
        operations.push(FileOperation::Remove { path: change.old_path.clone() });
    }
    let target = chars_of(change.target_path.as_str());
    let marker = chars_of("REMOVE");
    if !same_chars(&target, &marker) {
        operations.push(FileOperation::Create { path: change.target_path.clone() });
        operations.push(
            FileOperation::Copy {
                source: change.source_path.clone(),
                target: change.target_path.clone(),
            },
        );
    }
    assert(operations.deep_view() =~= before + operations_for(change.deep_view()));
}

/// The file operations that carry out `change`, in the order in which they
/// are to be performed.
pub fn file_operations(change: &ChangedPath) -> (operations: Vec<FileOperation>)
    ensures
        operations.deep_view() == operations_for(change.deep_view()),
{
    let mut operations: Vec<FileOperation> = Vec::new();
    assert(operations.deep_view() =~= Seq::<FileOperationView>::empty());
    push_operations(&mut operations, change);
    operations
}

/// The file operations that carry out `changes`, in the order in which they
/// are to be performed.
pub fn file_operations_for_all(changes: &Vec<ChangedPath>) -> (operations: Vec<FileOperation>)
    ensures
        operations.deep_view() == operations_for_all(changes.deep_view()),
{
    let ghost views = changes.deep_view();
    let mut operations: Vec<FileOperation> = Vec::new();
    assert(operations.deep_view() =~= Seq::<FileOperationView>::empty());
    let mut i: usize = 0;
    while i < changes.len()
        invariant
            i <= changes.len(),
            views == changes.deep_view(),
            operations.deep_view() == operations_for_all(views.take(i as int)),
        decreases changes.len() - i,
    {
        assert(views.take(i + 1).drop_last() == views.take(i as int));
        assert(views.take(i + 1).last() == changes@[i as int].deep_view());
        push_operations(&mut operations, &changes[i]);
        i += 1;
    }
    assert(views.take(changes.len() as int) == views);
    operations
}

/// The answer to a save that failed: a JSON object with the message under
/// `error`. The message is put between the quotes as it is.
pub open spec fn error_payload_text(message: Seq<char>) -> Seq<char> {
    "{ \"error\": \""@ + message + "\"}"@
}

/// The answer to a save that failed with `message`.
pub fn error_payload(message: &str) -> (payload: String)
    ensures
        payload@ == error_payload_text(message@),
{
    let mut out = chars_of("{ \"error\": \"");
    push_all(&mut out, &chars_of(message));
    push_all(&mut out, &chars_of("\"}"));
    string_of(&out)
}

/// Whether the icons can be compared: whether every shortcut of `icons`
/// has a text as its icon, and a text as its icon in `originals`.
pub open spec fn icons_comparable(
    icons: Map<Seq<char>, Option<Seq<char>>>,
    originals: Map<Seq<char>, Option<Seq<char>>>,
) -> bool {
    forall|id: Seq<char>| #[trigger]
        icons.contains_key(id) ==> icons[id] is Some && originals.contains_key(id)
            && originals[id] is Some
}

/// Whether the icon of some shortcut of `icons` is not the one it has in
/// `originals`.
pub open spec fn icons_differ(
    icons: Map<Seq<char>, Option<Seq<char>>>,
    originals: Map<Seq<char>, Option<Seq<char>>>,
) -> bool {
    exists|id: Seq<char>| #[trigger] icons.contains_key(id) && icons[id] != originals[id]
}

/// With no shortcuts no icon changed, and the icons can be compared.
pub proof fn lemma_no_shortcuts_no_changes(originals: Map<Seq<char>, Option<Seq<char>>>)
    ensures
        icons_comparable(Map::empty(), originals),
        !icons_differ(Map::empty(), originals),
{
}

/// Compares the icon of every shortcut with the one it had, where that can
/// be done: tells whether some icon changed, or nothing where a shortcut
/// has no text as its icon or as its icon before.
pub fn try_check_for_shortcut_changes(
    shortcut_icons: &serde_json::Map<String, serde_json::Value>,
    original_shortcut_icons: &serde_json::Map<String, serde_json::Value>,
) -> (changed: Option<bool>)
    ensures
        match changed {
            Some(changed) => icons_comparable(
                json_texts(*shortcut_icons),
                json_texts(*original_shortcut_icons),
            ) && changed == icons_differ(
                json_texts(*shortcut_icons),
                json_texts(*original_shortcut_icons),
            ),
            None => !icons_comparable(
                json_texts(*shortcut_icons),
                json_texts(*original_shortcut_icons),
            ),
        },
{
    let ghost icons = json_texts(*shortcut_icons);
    let ghost originals = json_texts(*original_shortcut_icons);
    let entries = json_text_entries(shortcut_icons);
    let mut changed = false;
    let mut i: usize = 0;
    while i < entries.len()
        invariant
            i <= entries.len(),
            icons == json_texts(*shortcut_icons),
            originals == json_texts(*original_shortcut_icons),
            forall|k: int|
                0 <= k < entries@.len() ==> icons.contains_key((#[trigger] entries@[k]).0@)
                    && icons[entries@[k].0@] == text_of(entries@[k].1),
            forall|k: int|
                0 <= k < i ==> icons[(#[trigger] entries@[k]).0@] is Some && originals.contains_key(
                    entries@[k].0@,
                ) && originals[entries@[k].0@] is Some,
            changed <==> exists|k: int|
                0 <= k < i && icons[(#[trigger] entries@[k]).0@] != originals[entries@[k].0@],
        decreases entries.len() - i,
    {
        let id = &entries[i].0;
        let ghost key = entries@[i as int].0@;
        let icon = match &entries[i].1 {
            Some(icon) => icon,
            None => {
                assert(icons.contains_key(key) && icons[key] is None);
                return None;
            },
        };
        let original = match json_text_at(original_shortcut_icons, id.as_str()) {
            Some(Some(original)) => original,
            _ => {
                assert(icons.contains_key(key));
                return None;
            },
        };
        if *icon != original {
            changed = true;
        }
        i += 1;
    }
    proof {
        assert forall|id: Seq<char>| #[trigger] icons.contains_key(id) implies icons[id] is Some
            && originals.contains_key(id) && originals[id] is Some by {
            let k = choose|k: int| 0 <= k < entries@.len() && (#[trigger] entries@[k]).0@ == id;
            assert(entries@[k].0@ == id);
        }
        if icons_differ(icons, originals) {
            let id = choose|id: Seq<char>| #[trigger]
                icons.contains_key(id) && icons[id] != originals[id];
            let k = choose|k: int| 0 <= k < entries@.len() && (#[trigger] entries@[k]).0@ == id;
            assert(icons[entries@[k].0@] != originals[entries@[k].0@]);
        }
    }
    Some(changed)
}

/// Tells whether the icon of some shortcut is not the one it had. With no
/// shortcuts the answer is no.
pub fn check_for_shortcut_changes(
    shortcut_icons: &serde_json::Map<String, serde_json::Value>,
    original_shortcut_icons: &serde_json::Map<String, serde_json::Value>,
) -> (changed: bool)
    requires
        icons_comparable(json_texts(*shortcut_icons), json_texts(*original_shortcut_icons)),
    ensures
        changed == icons_differ(json_texts(*shortcut_icons), json_texts(*original_shortcut_icons)),
{
    try_check_for_shortcut_changes(shortcut_icons, original_shortcut_icons).unwrap()
}


/// The first part of a save: the changes, and the file operations that
/// carry them out.
#[derive(Clone, Debug, PartialEq, Eq)]
pub struct SavePlan {
    pub changes: Vec<ChangedPath>,
    pub operations: Vec<FileOperation>,
}

/// What a `SavePlan` stands for.
pub struct SavePlanView {
    pub changes: Seq<ChangedPathView>,
    pub operations: Seq<FileOperationView>,
}

impl DeepView for SavePlan {
    type V = SavePlanView;

    open spec fn deep_view(&self) -> SavePlanView {
        SavePlanView {
            changes: self.changes.deep_view(),
            operations: self.operations.deep_view(),
        }
    }
}

/// The plan of a save: the changes that lead from `original` to `current`,
/// and the file operations of those changes.
pub open spec fn save_plan(
    grids_dir: Seq<char>,
    current: Seq<AppGridsView>,
    original: Seq<AppGridsView>,
) -> SavePlanView {
    SavePlanView {
        changes: all_changes(grids_dir, current, original),
        operations: operations_for_all(all_changes(grids_dir, current, original)),
    }
}

/// Plans the first part of a save: works out the changes from `original` to
/// `current` and the file operations that carry them out.
pub fn plan_save_changes(
    grids_dir: &str,
    current: &GridAssignments,
    original: &GridAssignments,
) -> (plan: SavePlan)
    requires
        paths_can_be_filtered(current.deep_view(), original.deep_view()),
    ensures
        plan.deep_view() == save_plan(grids_dir@, current.deep_view(), original.deep_view()),
{
    let changes = filter_paths(grids_dir, current, original);
    let operations = file_operations_for_all(&changes);
    SavePlan { changes, operations }
}

/// Plans the first part of a save where that can be done, and tells where
/// it cannot: where `current` lists a slot twice, or a slot that changes to
/// a new image names no kind or has a source path without an extension.
pub fn try_plan_save_changes(
    grids_dir: &str,
    current: &GridAssignments,
    original: &GridAssignments,
) -> (plan: Option<SavePlan>)
    ensures
        match plan {
            Some(plan) => paths_can_be_filtered(current.deep_view(), original.deep_view())
                && plan.deep_view() == save_plan(
                grids_dir@,
                current.deep_view(),
                original.deep_view(),
            ),
            None => !paths_can_be_filtered(current.deep_view(), original.deep_view()),
        },
{
    if can_filter_paths(current, original) {
        Some(plan_save_changes(grids_dir, current, original))
    } else {
        None
    }
}

/// The bytes of the shortcuts file after the changes: those of the tree
/// `shortcuts` with the icons that the changes give to its shortcuts. A
/// tree without shortcuts is refused.
pub open spec fn rewritten_shortcuts(shortcuts: VdfValue, changes: Seq<ChangedPathView>) -> Result<
    Seq<u8>,
    VdfError,
> {
    match linked_root(shortcuts, changes) {
        Ok(linked) => Ok(encoded_value(linked)),
        Err(error) => Err(error),
    }
}

/// The second part of a save, for a save in which the icon of some
/// shortcut changed: the new bytes of the shortcuts file.
pub fn rewrite_shortcuts(shortcuts: &VdfNode, changes: &Vec<ChangedPath>) -> (bytes: Result<
    Vec<u8>,
    VdfError,
>)
    ensures
        match bytes {
            Ok(bytes) => rewritten_shortcuts(shortcuts@, changes.deep_view()) == Ok::<
                Seq<u8>,
                VdfError,
            >(bytes@),
            Err(error) => rewritten_shortcuts(shortcuts@, changes.deep_view()) == Err::<
                Seq<u8>,
                VdfError,
            >(error),
        },
{
    match link_shortcut_icons(shortcuts, changes) {
        Ok(linked) => Ok(encode(&linked)),
        Err(error) => Err(error),
    }
}

} // verus!
