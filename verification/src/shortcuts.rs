//! The shortcuts of `shortcuts.vdf` and the icons that they point to.
//!
//! The file holds one object under the key `shortcuts`; its fields are the
//! shortcuts, each an object with an `appid` and, among others, an `icon`.
//! When the icon of an app changes, the shortcut of that app is made to
//! point to the new file; nothing else in the tree is touched.

use crate::error::VdfError;
use crate::format::{decoded, encoded_value, well_formed, writable_text, VdfField, VdfValue};
use crate::grids::{
    all_changes, lemma_changes_name_each_slot_once, unique_slots, AppGridsView, ChangedPath,
    ChangedPathView, GridType,
};
use crate::node::{
    duplicate_entries, field_value, fields_of, find_entry, index_of_key, lemma_fields_of_push,
    lemma_index_of_key, lemma_object_view, same_text, VdfEntry, VdfNode,
};
use crate::roundtrip::lemma_encode_then_decode;
use crate::text::{decimal, decimal_string};
use crate::wire::{bits_of_i32, i32_to_bits};
use vstd::prelude::*;
use vstd::utf8::{encode_utf8, is_ascii_chars, is_ascii_chars_encode_utf8};

verus! {

/// The key of the object that holds the shortcuts.
pub open spec fn shortcuts_key() -> Seq<char> {
    "shortcuts"@
}

/// The key of a shortcut's app id.
pub open spec fn appid_key() -> Seq<char> {
    "appid"@
}

/// The key of a shortcut's icon.
pub open spec fn icon_key() -> Seq<char> {
    "icon"@
}

/// The app id of a shortcut: the number under `appid`, read as unsigned.
pub open spec fn shortcut_app_id(shortcut: VdfValue) -> Option<u32> {
    match field_value(shortcut, appid_key()) {
        Some(VdfValue::Int32(number)) => Some(bits_of_i32(number)),
        _ => None,
    }
}

/// The path of the new icon of the app `app_id`: the target of the last
/// change that names the icon of that app.
pub open spec fn icon_target(changes: Seq<ChangedPathView>, app_id: Seq<char>) -> Option<
    Seq<char>,
>
    decreases changes.len(),
{
    if changes.len() == 0 {
        None
    } else if changes.last().grid_type == GridType::Icon.name_text() && changes.last().app_id == app_id {
        Some(changes.last().target_path)
    } else {
        icon_target(changes.drop_last(), app_id)
    }
}

/// `fields` with `value` under `key`: in place of the value of the first
/// field with that key, or as a new last field.
pub open spec fn with_field(fields: Seq<VdfField>, key: Seq<char>, value: VdfValue) -> Seq<
    VdfField,
> {
    if index_of_key(fields, key) >= 0 {
        fields.update(index_of_key(fields, key), VdfField { key, value })
    } else {
        fields.push(VdfField { key, value })
    }
}

/// A shortcut after the changes: with the new icon, where a change names
/// the icon of its app, and as it was otherwise.
pub open spec fn linked_shortcut(shortcut: VdfValue, changes: Seq<ChangedPathView>) -> VdfValue {
    match shortcut {
        VdfValue::Object(fields) => match shortcut_app_id(shortcut) {
            Some(app_id) => match icon_target(changes, decimal(app_id as nat)) {
                Some(target) => VdfValue::Object(
                    with_field(fields, icon_key(), VdfValue::String(target)),
                ),
                None => shortcut,
            },
            None => shortcut,
        },
        _ => shortcut,
    }
}

/// The shortcuts after the changes, each under the key it had.
pub open spec fn linked_shortcuts(shortcuts: Seq<VdfField>, changes: Seq<ChangedPathView>) -> Seq<
    VdfField,
> {
    Seq::new(
        shortcuts.len(),
        |i: int|
            VdfField { key: shortcuts[i].key, value: linked_shortcut(shortcuts[i].value, changes) },
    )
}

/// The shortcuts that the tree `root` holds, if it holds any: the fields of
/// the object under its key `shortcuts`.
pub open spec fn shortcuts_in(root: VdfValue) -> Option<Seq<VdfField>> {
    match field_value(root, shortcuts_key()) {
        Some(VdfValue::Object(shortcuts)) => Some(shortcuts),
        _ => None,
    }
}

/// The tree after the changes: the shortcuts with their new icons, the
/// rest as it was. A tree without an object under `shortcuts` is refused.
pub open spec fn linked_root(root: VdfValue, changes: Seq<ChangedPathView>) -> Result<
    VdfValue,
    VdfError,
> {
    match shortcuts_in(root) {
        Some(shortcuts) => Ok(
            VdfValue::Object(
                root->Object_0.update(
                    index_of_key(root->Object_0, shortcuts_key()),
                    VdfField {
                        key: shortcuts_key(),
                        value: VdfValue::Object(linked_shortcuts(shortcuts, changes)),
                    },
                ),
            ),
        ),
        None => Err(VdfError::MissingKey),
    }
}

/// The shortcuts that the tree of a shortcuts file holds: the entries of
/// the object under its key `shortcuts`. A tree without such an object has
/// a missing key.
pub fn get_shortcuts(root: &VdfNode) -> (shortcuts: Result<&Vec<VdfEntry>, VdfError>)
    ensures
        match shortcuts {
            Ok(entries) => shortcuts_in(root@) == Some(fields_of(entries@)),
            Err(error) => error == VdfError::MissingKey && shortcuts_in(root@) is None,
        },
{
    match root.get("shortcuts") {
        Some(VdfNode::Object(entries)) => {
            proof {
                lemma_object_view(*entries);
            }
            Ok(entries)
        },
        _ => Err(VdfError::MissingKey),
    }
}

/// The icon of a shortcut, where it has a text under `icon`.
pub fn shortcut_icon(shortcut: &VdfNode) -> (icon: Option<&String>)
    ensures
        match icon {
            Some(path) => field_value(shortcut@, icon_key()) == Some(VdfValue::String(path@)),
            None => !(field_value(shortcut@, icon_key()) matches Some(VdfValue::String(_))),
        },
{
    match shortcut.get("icon") {
        Some(VdfNode::String(path)) => Some(path),
        _ => None,
    }
}

/// The app id of a shortcut, where it has one.
pub fn shortcut_appid(shortcut: &VdfNode) -> (app_id: Option<u32>)
    ensures
        app_id == shortcut_app_id(shortcut@),
{
    match shortcut.get("appid") {
        Some(VdfNode::Int32(number)) => Some(i32_to_bits(*number)),
        _ => None,
    }
}

/// The target of the last change that names the icon of `app_id`.
pub fn find_icon_target<'a>(changes: &'a Vec<ChangedPath>, app_id: &String) -> (target: Option<
    &'a String,
>)
    ensures
        match target {
            Some(path) => icon_target(changes.deep_view(), app_id@) == Some(path@),
            None => icon_target(changes.deep_view(), app_id@) is None,
        },
{
    let ghost all = changes.deep_view();
    let mut i: usize = changes.len();
    assert(all.take(i as int) == all);
    while i > 0
        invariant
            i <= changes.len(),
            all == changes.deep_view(),
            icon_target(all, app_id@) == icon_target(all.take(i as int), app_id@),
        decreases i,
    {
        let change = &changes[i - 1];
        assert(all.take(i as int).last() == change.deep_view());
        assert(all.take(i as int).drop_last() == all.take(i - 1));
        if same_text(change.grid_type.as_str(), "Icon") && change.app_id == *app_id {
            return Some(&change.target_path);
        }
        i -= 1;
    }
    None
}

/// The entries with `value` under `key`: in place of the value of the
/// first entry with that key, or as a new last entry.
pub fn set_field(entries: &Vec<VdfEntry>, key: &str, value: VdfNode) -> (changed: Vec<VdfEntry>)
    ensures
        fields_of(changed@) == with_field(fields_of(entries@), key@, value@),
{
    let ghost fields = fields_of(entries@);
    let ghost field = VdfField { key: key@, value: value@ };
    match find_entry(entries, key) {
        Some(at) => {
            let mut changed: Vec<VdfEntry> = Vec::new();
            let mut i: usize = 0;
            while i < at
                invariant
                    i <= at < entries.len(),
                    fields == fields_of(entries@),
                    fields_of(changed@) == fields.take(i as int),
                decreases at - i,
            {
                let copy = VdfEntry {
                    key: entries[i].key.clone(),
                    value: entries[i].value.duplicate(),
                };
                proof {
                    lemma_fields_of_push(changed@, copy);
                }
                changed.push(copy);
                i += 1;
            }
            let entry = VdfEntry { key: key.to_owned(), value };
            proof {
                lemma_fields_of_push(changed@, entry);
            }
            changed.push(entry);
            i = at + 1;
            while i < entries.len()
                invariant
                    at < i <= entries.len(),
                    fields == fields_of(entries@),
                    fields_of(changed@) == fields.update(at as int, field).take(i as int),
                decreases entries.len() - i,
            {
                let copy = VdfEntry {
                    key: entries[i].key.clone(),
                    value: entries[i].value.duplicate(),
                };
                proof {
                    lemma_fields_of_push(changed@, copy);
                }
                changed.push(copy);
                i += 1;
            }
            assert(fields.update(at as int, field).take(entries.len() as int) == fields.update(
                at as int,
                field,
            ));
            changed
        },
        None => {
            let mut changed = duplicate_entries(entries);
            let entry = VdfEntry { key: key.to_owned(), value };
            proof {
                lemma_fields_of_push(changed@, entry);
            }
            changed.push(entry);
            changed
        },
    }
}

/// The shortcut with the icon that the changes give it: a copy that points
/// to the new icon where a change names the icon of the shortcut's app,
/// and a plain copy otherwise.
pub fn link_shortcut(shortcut: &VdfNode, changes: &Vec<ChangedPath>) -> (linked: VdfNode)
    ensures
        linked@ == linked_shortcut(shortcut@, changes.deep_view()),
{
    match shortcut {
        VdfNode::Object(entries) => {
            proof {
                lemma_object_view(*entries);
            }
            match shortcut_appid(shortcut) {
                Some(app_id) => {
                    let id = decimal_string(app_id as u64);
                    match find_icon_target(changes, &id) {
                        Some(target) => {
                            let fields = set_field(entries, "icon", VdfNode::String(target.clone()));
                            proof {
                                lemma_object_view(fields);
                            }
                            VdfNode::Object(fields)
                        },
                        None => shortcut.duplicate(),
                    }
                },
                None => shortcut.duplicate(),
            }
        },
        _ => shortcut.duplicate(),
    }
}

/// The tree of a shortcuts file with the icons that the changes give to
/// its shortcuts: a copy of `root` in which every shortcut whose app has a
/// change of its icon points to the target of that change.
pub fn link_shortcut_icons(root: &VdfNode, changes: &Vec<ChangedPath>) -> (linked: Result<
    VdfNode,
    VdfError,
>)
    ensures
        match linked {
            Ok(node) => linked_root(root@, changes.deep_view()) == Ok::<VdfValue, VdfError>(node@),
            Err(error) => linked_root(root@, changes.deep_view()) == Err::<VdfValue, VdfError>(
                error,
            ),
        },
{
    let entries = match root {
        VdfNode::Object(entries) => entries,
        _ => {
            return Err(VdfError::MissingKey);
        },
    };
    let shortcuts = match get_shortcuts(root) {
        Ok(shortcuts) => shortcuts,
        Err(error) => {
            return Err(error);
        },
    };
    proof {
        lemma_object_view(*entries);
    }
    let ghost old_shortcuts = fields_of(shortcuts@);
    let ghost views = changes.deep_view();
    let mut linked: Vec<VdfEntry> = Vec::new();
    let mut i: usize = 0;
    while i < shortcuts.len()
        invariant
            i <= shortcuts.len(),
            old_shortcuts == fields_of(shortcuts@),
            views == changes.deep_view(),
            fields_of(linked@) == linked_shortcuts(old_shortcuts, views).take(i as int),
        decreases shortcuts.len() - i,
    {
        let entry = VdfEntry {
            key: shortcuts[i].key.clone(),
            value: link_shortcut(&shortcuts[i].value, changes),
        };
        proof {
            lemma_fields_of_push(linked@, entry);
        }
        linked.push(entry);
        i += 1;
    }
    assert(linked_shortcuts(old_shortcuts, views).take(shortcuts.len() as int)
        == linked_shortcuts(old_shortcuts, views));
    proof {
        lemma_object_view(linked);
    }
    let fields = set_field(entries, "shortcuts", VdfNode::Object(linked));
    proof {
        lemma_object_view(fields);
    }
    Ok(VdfNode::Object(fields))
}

/// Writing a value under a key puts it there: the first field with the key
/// then holds the value.
pub proof fn lemma_with_field_holds(fields: Seq<VdfField>, key: Seq<char>, value: VdfValue)
    ensures
        field_value(VdfValue::Object(with_field(fields, key, value)), key) == Some(value),
{
    let changed = with_field(fields, key, value);
    lemma_index_of_key(fields, key);
    lemma_index_of_key(changed, key);
    let at = index_of_key(fields, key);
    let found = index_of_key(changed, key);
    if at >= 0 {
        assert(changed[at].key == key);
        if found < at {
            assert(changed[found] == fields[found]);
        }
    } else {
        assert(changed[fields.len() as int].key == key);
        if found < fields.len() {
            assert(changed[found] == fields[found]);
        }
    }
}

/// The change that names the icon of an app sets the target: where the
/// change at `k` names the icon of `app_id` and no later change does, its
/// target is the new icon of the app.
pub proof fn lemma_icon_target_of_change(changes: Seq<ChangedPathView>, app_id: Seq<char>, k: int)
    requires
        0 <= k < changes.len(),
        changes[k].app_id == app_id,
        changes[k].grid_type == GridType::Icon.name_text(),
        forall|j: int|
            k < j < changes.len() ==> !((#[trigger] changes[j]).app_id == app_id
                && changes[j].grid_type == GridType::Icon.name_text()),
    ensures
        icon_target(changes, app_id) == Some(changes[k].target_path),
    decreases changes.len(),
{
    if k < changes.len() - 1 {
        assert(changes.drop_last()[k] == changes[k]);
        assert forall|j: int| k < j < changes.drop_last().len() implies !((
        #[trigger] changes.drop_last()[j]).app_id == app_id && changes.drop_last()[j].grid_type
            == GridType::Icon.name_text()) by {
            assert(changes.drop_last()[j] == changes[j]);
        }
        lemma_icon_target_of_change(changes.drop_last(), app_id, k);
    }
}

/// A shortcut follows the icon of its app: where the tree `root` holds
/// shortcuts, the shortcut at `i` has the app id `app_id`, and the changes
/// give that app the new icon `target`, the shortcut at `i` of the tree
/// after the changes has `target` as its icon.
pub proof fn lemma_shortcut_icon_is_linked(
    root: VdfValue,
    changes: Seq<ChangedPathView>,
    i: int,
    app_id: u32,
    target: Seq<char>,
)
    requires
        shortcuts_in(root) is Some,
        0 <= i < shortcuts_in(root)->Some_0.len(),
        shortcut_app_id(shortcuts_in(root)->Some_0[i].value) == Some(app_id),
        icon_target(changes, decimal(app_id as nat)) == Some(target),
    ensures
        linked_root(root, changes) is Ok,
        shortcuts_in(linked_root(root, changes)->Ok_0) is Some,
        shortcuts_in(linked_root(root, changes)->Ok_0)->Some_0.len() == shortcuts_in(
            root,
        )->Some_0.len(),
        field_value(shortcuts_in(linked_root(root, changes)->Ok_0)->Some_0[i].value, icon_key())
            == Some(VdfValue::String(target)),
{
    let shortcuts = shortcuts_in(root)->Some_0;
    lemma_linking_keeps_the_keys(root, changes);
    lemma_with_field_holds(shortcuts[i].value->Object_0, icon_key(), VdfValue::String(target));
}

/// The changes add no shortcut, remove none and rename none: the tree
/// after the changes holds as many shortcuts as before, each under the key
/// it had.
pub proof fn lemma_linking_keeps_the_keys(root: VdfValue, changes: Seq<ChangedPathView>)
    requires
        shortcuts_in(root) is Some,
    ensures
        linked_root(root, changes) is Ok,
        shortcuts_in(linked_root(root, changes)->Ok_0) == Some(
            linked_shortcuts(shortcuts_in(root)->Some_0, changes),
        ),
        linked_shortcuts(shortcuts_in(root)->Some_0, changes).len() == shortcuts_in(
            root,
        )->Some_0.len(),
        forall|i: int|
            0 <= i < shortcuts_in(root)->Some_0.len() ==> (#[trigger] linked_shortcuts(
                shortcuts_in(root)->Some_0,
                changes,
            )[i]).key == shortcuts_in(root)->Some_0[i].key,
{
    let fields = root->Object_0;
    let at = index_of_key(fields, shortcuts_key());
    let linked = linked_shortcuts(shortcuts_in(root)->Some_0, changes);
    let changed = fields.update(at, VdfField { key: shortcuts_key(), value: VdfValue::Object(linked) });
    lemma_index_of_key(fields, shortcuts_key());
    lemma_index_of_key(changed, shortcuts_key());
    let found = index_of_key(changed, shortcuts_key());
    assert(changed[at].key == shortcuts_key());
    if found < at {
        assert(changed[found] == fields[found]);
    }
}

/// Text of ASCII characters other than the zero character can be written.
pub proof fn lemma_ascii_text_is_writable(text: Seq<char>)
    requires
        forall|i: int| 0 <= i < text.len() ==> '\0' < #[trigger] text[i] <= '\u{7f}',
    ensures
        writable_text(text),
{
    assert(is_ascii_chars(text));
    is_ascii_chars_encode_utf8(text);
    assert forall|i: int| 0 <= i < encode_utf8(text).len() implies #[trigger] encode_utf8(text)[i]
        != 0 by {
        assert(text[i] as u8 == encode_utf8(text)[i]);
    }
}

/// Writing a well-formed value under a key that can be written keeps an
/// object well formed.
pub proof fn lemma_with_field_is_well_formed(fields: Seq<VdfField>, key: Seq<char>, value: VdfValue)
    requires
        well_formed(VdfValue::Object(fields)),
        writable_text(key),
        well_formed(value),
    ensures
        well_formed(VdfValue::Object(with_field(fields, key, value))),
{
    let changed = with_field(fields, key, value);
    let at = index_of_key(fields, key);
    lemma_index_of_key(fields, key);
    assert forall|i: int, j: int| 0 <= i < j < changed.len() implies changed[i].key
        != changed[j].key by {
        if at >= 0 {
            assert(changed[i].key == fields[i].key);
            assert(changed[j].key == fields[j].key);
        } else if j == fields.len() {
            assert(changed[i] == fields[i]);
        } else {
            assert(changed[i] == fields[i] && changed[j] == fields[j]);
        }
    }
    assert forall|i: int| 0 <= i < changed.len() implies writable_text((#[trigger] changed[i]).key)
        && well_formed(changed[i].value) by {
        if i < fields.len() && i != at {
            assert(changed[i] == fields[i]);
        }
    }
}

/// The new icon of an app is the target of one of the changes.
pub proof fn lemma_icon_target_is_a_target(changes: Seq<ChangedPathView>, app_id: Seq<char>) -> (k:
    int)
    requires
        icon_target(changes, app_id) is Some,
    ensures
        0 <= k < changes.len(),
        icon_target(changes, app_id) == Some(changes[k].target_path),
    decreases changes.len(),
{
    if changes.last().grid_type == GridType::Icon.name_text() && changes.last().app_id == app_id {
        changes.len() - 1
    } else {
        let k = lemma_icon_target_is_a_target(changes.drop_last(), app_id);
        assert(changes.drop_last()[k] == changes[k]);
        k
    }
}

/// Whether the target of every change can be written.
pub open spec fn targets_are_writable(changes: Seq<ChangedPathView>) -> bool {
    forall|k: int| 0 <= k < changes.len() ==> writable_text((#[trigger] changes[k]).target_path)
}

/// A well-formed tree stays well formed when its shortcuts are given
/// their new icons, where the targets of the changes can be written.
pub proof fn lemma_linked_root_is_well_formed(root: VdfValue, changes: Seq<ChangedPathView>)
    requires
        well_formed(root),
        shortcuts_in(root) is Some,
        targets_are_writable(changes),
    ensures
        linked_root(root, changes) is Ok,
        well_formed(linked_root(root, changes)->Ok_0),
{
    reveal_strlit("icon");
    reveal_strlit("shortcuts");
    lemma_ascii_text_is_writable(icon_key());
    lemma_ascii_text_is_writable(shortcuts_key());
    let fields = root->Object_0;
    let at = index_of_key(fields, shortcuts_key());
    lemma_index_of_key(fields, shortcuts_key());
    let shortcuts = shortcuts_in(root)->Some_0;
    let linked = linked_shortcuts(shortcuts, changes);
    assert(well_formed(fields[at].value));
    assert(well_formed(VdfValue::Object(linked))) by {
        assert forall|i: int, j: int| 0 <= i < j < linked.len() implies linked[i].key
            != linked[j].key by {
            assert(shortcuts[i].key != shortcuts[j].key);
        }
        assert forall|i: int| 0 <= i < linked.len() implies writable_text(
            (#[trigger] linked[i]).key,
        ) && well_formed(linked[i].value) by {
            let shortcut = shortcuts[i].value;
            assert(writable_text(shortcuts[i].key) && well_formed(shortcut));
            if shortcut is Object && shortcut_app_id(shortcut) is Some {
                let app_id = decimal(shortcut_app_id(shortcut)->Some_0 as nat);
                if icon_target(changes, app_id) is Some {
                    let k = lemma_icon_target_is_a_target(changes, app_id);
                    lemma_with_field_is_well_formed(
                        shortcut->Object_0,
                        icon_key(),
                        VdfValue::String(changes[k].target_path),
                    );
                }
            }
        }
    }
    lemma_with_field_is_well_formed(fields, shortcuts_key(), VdfValue::Object(linked));
}

/// The shortcuts file that is written after the changes holds the tree
/// with the new icons: where the tree `root` is well formed and the targets
/// of the changes can be written, the bytes written for the tree after the
/// changes are read back as that tree.
pub proof fn lemma_rewritten_file_holds_the_linked_tree(
    root: VdfValue,
    changes: Seq<ChangedPathView>,
)
    requires
        well_formed(root),
        shortcuts_in(root) is Some,
        targets_are_writable(changes),
    ensures
        linked_root(root, changes) is Ok,
        decoded(encoded_value(linked_root(root, changes)->Ok_0)) == Ok::<VdfValue, VdfError>(
            linked_root(root, changes)->Ok_0,
        ),
{
    lemma_linked_root_is_well_formed(root, changes);
    lemma_encode_then_decode(linked_root(root, changes)->Ok_0);
}

/// After a save, a shortcut points to the new icon of its app: where
/// `current` lists each slot once, the change at `k` of the changes from
/// `original` to `current` names the icon of the app `app_id`, and the
/// shortcut at `i` of the tree `root` has that app id, the shortcut at `i`
/// of the tree after the changes has the target of that change as its icon.
pub proof fn lemma_saved_shortcut_follows_its_icon(
    grids_dir: Seq<char>,
    current: Seq<AppGridsView>,
    original: Seq<AppGridsView>,
    root: VdfValue,
    k: int,
    i: int,
    app_id: u32,
)
    requires
        unique_slots(current),
        0 <= k < all_changes(grids_dir, current, original).len(),
        all_changes(grids_dir, current, original)[k].app_id == decimal(app_id as nat),
        all_changes(grids_dir, current, original)[k].grid_type == GridType::Icon.name_text(),
        shortcuts_in(root) is Some,
        0 <= i < shortcuts_in(root)->Some_0.len(),
        shortcut_app_id(shortcuts_in(root)->Some_0[i].value) == Some(app_id),
    ensures
        linked_root(root, all_changes(grids_dir, current, original)) is Ok,
        field_value(
            shortcuts_in(
                linked_root(root, all_changes(grids_dir, current, original))->Ok_0,
            )->Some_0[i].value,
            icon_key(),
        ) == Some(VdfValue::String(all_changes(grids_dir, current, original)[k].target_path)),
{
    let changes = all_changes(grids_dir, current, original);
    let id = decimal(app_id as nat);
    assert forall|j: int| k < j < changes.len() implies !((#[trigger] changes[j]).app_id == id
        && changes[j].grid_type == GridType::Icon.name_text()) by {
        lemma_changes_name_each_slot_once(grids_dir, current, original, k, j);
    }
    lemma_icon_target_of_change(changes, id, k);
    lemma_shortcut_icon_is_linked(root, changes, i, app_id, changes[k].target_path);
}

} // verus!
