//! Grid artwork: which image is assigned to which slot of which app, and
//! what has to change on disk when the assignments change.

use crate::text::{
    chars_of, ends_with, extension, find_last, has_extension, has_suffix, join_chars, joined,
    last_index_of, lemma_last_index_of, normalize_chars, normalized, push_all, same_chars,
    string_of,
};
use vstd::prelude::*;

verus! {

/// The kinds of artwork that an app can have.
#[derive(Clone, Copy, Debug, PartialEq, Eq, Structural)]
pub enum GridType {
    Capsule,
    WideCapsule,
    Hero,
    Logo,
    Icon,
}

impl GridType {
    /// The name under which the kind is exchanged with callers.
    pub open spec fn name_text(self) -> Seq<char> {
        match self {
            GridType::Capsule => "Capsule"@,
            GridType::WideCapsule => "Wide Capsule"@,
            GridType::Hero => "Hero"@,
            GridType::Logo => "Logo"@,
            GridType::Icon => "Icon"@,
        }
    }

    /// What follows the app id in the file name of an image of this kind.
    pub open spec fn suffix(self) -> Seq<char> {
        match self {
            GridType::Capsule => "p"@,
            GridType::WideCapsule => ""@,
            GridType::Hero => "_hero"@,
            GridType::Logo => "_logo"@,
            GridType::Icon => "_icon"@,
        }
    }

    /// No two kinds share a name.
    pub proof fn lemma_names_differ(a: GridType, b: GridType)
        requires
            a.name_text() == b.name_text(),
        ensures
            a == b,
    {
        reveal_strlit("Capsule");
        reveal_strlit("Wide Capsule");
        reveal_strlit("Hero");
        reveal_strlit("Logo");
        reveal_strlit("Icon");
        assert("Capsule"@.len() == 7);
        assert("Wide Capsule"@.len() == 12);
        assert("Hero"@.len() == 4 && "Hero"@[0] == 'H');
        assert("Logo"@.len() == 4 && "Logo"@[0] == 'L');
        assert("Icon"@.len() == 4 && "Icon"@[0] == 'I');
    }

    fn name_str(&self) -> (name: &'static str)
        ensures
            name@ == self.name_text(),
    {
        match self {
            GridType::Capsule => "Capsule",
            GridType::WideCapsule => "Wide Capsule",
            GridType::Hero => "Hero",
            GridType::Logo => "Logo",
            GridType::Icon => "Icon",
        }
    }

    fn suffix_str(&self) -> (suffix: &'static str)
        ensures
            suffix@ == self.suffix(),
    {
        match self {
            GridType::Capsule => "p",
            GridType::WideCapsule => "",
            GridType::Hero => "_hero",
            GridType::Logo => "_logo",
            GridType::Icon => "_icon",
        }
    }

    /// The name of the kind.
    pub fn name(&self) -> (name: String)
        ensures
            name@ == self.name_text(),
    {
        let chars = chars_of(self.name_str());
        string_of(&chars)
    }

    /// Each kind is the kind of its name.
    pub proof fn lemma_kind_of_name(kind: GridType)
        ensures
            kind_of(kind.name_text()) == Some(kind),
    {
        if kind_of(kind.name_text()) is Some {
            GridType::lemma_names_differ(kind_of(kind.name_text())->Some_0, kind);
        }
    }

    /// The kind with the given name, if there is one.
    pub fn from_name(name: &str) -> (found: Option<GridType>)
        ensures
            found == kind_of(name@),
    {
        let chars = chars_of(name);
        if same_chars(&chars, &chars_of(GridType::Capsule.name_str())) {
            Some(GridType::Capsule)
        } else if same_chars(&chars, &chars_of(GridType::WideCapsule.name_str())) {
            Some(GridType::WideCapsule)
        } else if same_chars(&chars, &chars_of(GridType::Hero.name_str())) {
            Some(GridType::Hero)
        } else if same_chars(&chars, &chars_of(GridType::Logo.name_str())) {
            Some(GridType::Logo)
        } else if same_chars(&chars, &chars_of(GridType::Icon.name_str())) {
            Some(GridType::Icon)
        } else {
            None
        }
    }
}

/// The kind that `name` names, if it names one.
pub open spec fn kind_of(name: Seq<char>) -> Option<GridType> {
    if name == GridType::Capsule.name_text() {
        Some(GridType::Capsule)
    } else if name == GridType::WideCapsule.name_text() {
        Some(GridType::WideCapsule)
    } else if name == GridType::Hero.name_text() {
        Some(GridType::Hero)
    } else if name == GridType::Logo.name_text() {
        Some(GridType::Logo)
    } else if name == GridType::Icon.name_text() {
        Some(GridType::Icon)
    } else {
        None
    }
}

/// The path that stands for "delete the image of this slot".
pub open spec fn remove_marker() -> Seq<char> {
    "REMOVE"@
}

/// The file name of the image of kind `grid_type` of the app `app_id`, with
/// the extension `image_type` (dot included).
pub open spec fn grid_filename(app_id: Seq<char>, grid_type: GridType, image_type: Seq<char>) -> Seq<
    char,
> {
    app_id + grid_type.suffix() + image_type
}

/// One slot of an app: the name of the kind of artwork and the path
/// assigned to it.
#[derive(Clone, Debug, PartialEq, Eq)]
pub struct GridSlot {
    pub grid_type: String,
    pub path: String,
}

/// What a `GridSlot` stands for.
pub struct GridSlotView {
    pub grid_type: Seq<char>,
    pub path: Seq<char>,
}

impl DeepView for GridSlot {
    type V = GridSlotView;

    open spec fn deep_view(&self) -> GridSlotView {
        GridSlotView { grid_type: self.grid_type@, path: self.path@ }
    }
}

/// The slots of one app.
#[derive(Clone, Debug, PartialEq, Eq)]
pub struct AppGrids {
    pub app_id: String,
    pub grids: Vec<GridSlot>,
}

/// What an `AppGrids` stands for.
pub struct AppGridsView {
    pub app_id: Seq<char>,
    pub grids: Seq<GridSlotView>,
}

impl DeepView for AppGrids {
    type V = AppGridsView;

    open spec fn deep_view(&self) -> AppGridsView {
        AppGridsView { app_id: self.app_id@, grids: self.grids.deep_view() }
    }
}

/// The paths assigned to the slots of all apps. It stands for a map from app
/// id to a map from the name of a kind to a path. A value that is valid
/// lists no app twice and no kind twice within an app (`unique_slots`,
/// tested by `has_unique_slots`); `filter_paths` asks that of `current`.
#[derive(Clone, Debug, PartialEq, Eq)]
pub struct GridAssignments {
    pub apps: Vec<AppGrids>,
}

impl DeepView for GridAssignments {
    type V = Seq<AppGridsView>;

    open spec fn deep_view(&self) -> Seq<AppGridsView> {
        self.apps.deep_view()
    }
}

/// No kind is listed twice.
pub open spec fn distinct_kinds(grids: Seq<GridSlotView>) -> bool {
    forall|m: int, n: int|
        #![trigger grids[m], grids[n]]
        0 <= m < n < grids.len() ==> grids[m].grid_type != grids[n].grid_type
}

/// No app is listed twice.
pub open spec fn distinct_apps(apps: Seq<AppGridsView>) -> bool {
    forall|i: int, j: int|
        #![trigger apps[i], apps[j]]
        0 <= i < j < apps.len() ==> apps[i].app_id != apps[j].app_id
}

/// No app is listed twice, and no kind twice within an app.
pub open spec fn unique_slots(apps: Seq<AppGridsView>) -> bool {
    &&& distinct_apps(apps)
    &&& forall|i: int| 0 <= i < apps.len() ==> distinct_kinds(#[trigger] apps[i].grids)
}

/// The first entry for `app_id`.
pub open spec fn find_app(apps: Seq<AppGridsView>, app_id: Seq<char>) -> Option<AppGridsView>
    decreases apps.len(),
{
    if apps.len() == 0 {
        None
    } else if apps[0].app_id == app_id {
        Some(apps[0])
    } else {
        find_app(apps.drop_first(), app_id)
    }
}

/// The path of the first slot of kind `grid_type`.
pub open spec fn find_slot(grids: Seq<GridSlotView>, grid_type: Seq<char>) -> Option<Seq<char>>
    decreases grids.len(),
{
    if grids.len() == 0 {
        None
    } else if grids[0].grid_type == grid_type {
        Some(grids[0].path)
    } else {
        find_slot(grids.drop_first(), grid_type)
    }
}

/// The path assigned to a slot, if the slot is listed.
pub open spec fn assigned_path(apps: Seq<AppGridsView>, app_id: Seq<char>, grid_type: Seq<char>)
    -> Option<Seq<char>> {
    match find_app(apps, app_id) {
        Some(app) => find_slot(app.grids, grid_type),
        None => None,
    }
}

/// The path that a slot had before: the one assigned in `original`, or the
/// empty path where `original` does not list the slot.
pub open spec fn previous_path(
    original: Seq<AppGridsView>,
    app_id: Seq<char>,
    grid_type: Seq<char>,
) -> Seq<char> {
    match assigned_path(original, app_id, grid_type) {
        Some(path) => path,
        None => Seq::empty(),
    }
}

/// One change to apply: what a slot pointed to, where the new image comes
/// from and where it goes. `target_path` is the remove marker where the
/// slot's image is to be deleted.
#[derive(Clone, Debug, PartialEq, Eq)]
pub struct ChangedPath {
    pub app_id: String,
    pub grid_type: String,
    pub old_path: String,
    pub target_path: String,
    pub source_path: String,
}

/// What a `ChangedPath` stands for.
pub struct ChangedPathView {
    pub app_id: Seq<char>,
    pub grid_type: Seq<char>,
    pub old_path: Seq<char>,
    pub target_path: Seq<char>,
    pub source_path: Seq<char>,
}

impl DeepView for ChangedPath {
    type V = ChangedPathView;

    open spec fn deep_view(&self) -> ChangedPathView {
        ChangedPathView {
            app_id: self.app_id@,
            grid_type: self.grid_type@,
            old_path: self.old_path@,
            target_path: self.target_path@,
            source_path: self.source_path@,
        }
    }
}

/// A target that ends in `.webp` is stored under `.jpg`; any other target
/// stays as it is.
pub open spec fn stored_as(target: Seq<char>) -> Seq<char> {
    if ends_with(target, ".webp"@) {
        target.subrange(0, target.len() - 5) + ".jpg"@
    } else {
        target
    }
}

/// Where the image for a slot goes: the remove marker for a removal, else
/// the slot's file in `grids_dir`, named after the app, the kind that
/// `grid_type` names and the extension of `source`, with forward slashes
/// throughout.
pub open spec fn target_for(
    grids_dir: Seq<char>,
    app_id: Seq<char>,
    grid_type: Seq<char>,
    source: Seq<char>,
) -> Seq<char>
    recommends
        source != remove_marker() ==> kind_of(grid_type) is Some && has_extension(source),
{
    if source == remove_marker() {
        remove_marker()
    } else {
        stored_as(
            normalized(
                joined(
                    grids_dir,
                    normalized(
                        grid_filename(app_id, kind_of(grid_type)->Some_0, extension(source)),
                    ),
                ),
            ),
        )
    }
}

/// The change for one slot of `current`, if its path differs from the one it
/// had in `original`.
pub open spec fn change_for(
    grids_dir: Seq<char>,
    original: Seq<AppGridsView>,
    app_id: Seq<char>,
    slot: GridSlotView,
) -> Option<ChangedPathView> {
    let old = previous_path(original, app_id, slot.grid_type);
    if slot.path == old {
        None
    } else {
        Some(
            ChangedPathView {
                app_id,
                grid_type: slot.grid_type,
                old_path: normalized(old),
                target_path: target_for(grids_dir, app_id, slot.grid_type, slot.path),
                source_path: normalized(slot.path),
            },
        )
    }
}

/// The changes for the slots of one app, in the order of the slots.
pub open spec fn app_changes(
    grids_dir: Seq<char>,
    original: Seq<AppGridsView>,
    app_id: Seq<char>,
    grids: Seq<GridSlotView>,
) -> Seq<ChangedPathView>
    decreases grids.len(),
{
    if grids.len() == 0 {
        Seq::empty()
    } else {
        let before = app_changes(grids_dir, original, app_id, grids.drop_last());
        match change_for(grids_dir, original, app_id, grids.last()) {
            Some(change) => before.push(change),
            None => before,
        }
    }
}

/// The changes that lead from `original` to `current`: one for each slot of
/// `current` whose path differs from the one it had, in the order of
/// `current`.
pub open spec fn all_changes(
    grids_dir: Seq<char>,
    current: Seq<AppGridsView>,
    original: Seq<AppGridsView>,
) -> Seq<ChangedPathView>
    decreases current.len(),
{
    if current.len() == 0 {
        Seq::empty()
    } else {
        all_changes(grids_dir, current.drop_last(), original) + app_changes(
            grids_dir,
            original,
            current.last().app_id,
            current.last().grids,
        )
    }
}

/// Whether the slot can be filed: a slot that changes to a new image needs
/// the name of a kind and a source path with an extension.
pub open spec fn slot_has_target(
    original: Seq<AppGridsView>,
    app_id: Seq<char>,
    slot: GridSlotView,
) -> bool {
    slot.path != previous_path(original, app_id, slot.grid_type) && slot.path != remove_marker()
        ==> kind_of(slot.grid_type) is Some && has_extension(slot.path)
}

/// Whether the changes from `original` to `current` can be listed: whether
/// `current` lists each slot once and every slot of it can be filed.
pub open spec fn paths_can_be_filtered(
    current: Seq<AppGridsView>,
    original: Seq<AppGridsView>,
) -> bool {
    unique_slots(current) && slots_have_targets(current, original)
}

/// Whether every slot of `current` can be filed.
pub open spec fn slots_have_targets(current: Seq<AppGridsView>, original: Seq<AppGridsView>) -> bool {
    forall|i: int, j: int|
        #![trigger current[i].grids[j]]
        0 <= i < current.len() && 0 <= j < current[i].grids.len() ==> slot_has_target(
            original,
            current[i].app_id,
            current[i].grids[j],
        )
}


/// The characters of `text` from index `from` on.
fn tail_chars(text: &Vec<char>, from: usize) -> (out: Vec<char>)
    requires
        from <= text.len(),
    ensures
        out@ == text@.subrange(from as int, text.len() as int),
{
    let mut out: Vec<char> = Vec::new();
    let mut i: usize = from;
    while i < text.len()
        invariant
            from <= i <= text.len(),
            out@ == text@.subrange(from as int, i as int),
        decreases text.len() - i,
    {
        out.push(text[i]);
        i += 1;
    }
    out
}

fn filename_chars(app_id: &Vec<char>, grid_type: GridType, image_type: &Vec<char>) -> (out: Vec<
    char,
>)
    ensures
        out@ == grid_filename(app_id@, grid_type, image_type@),
{
    let mut out: Vec<char> = Vec::new();
    push_all(&mut out, app_id);
    let suffix = chars_of(grid_type.suffix_str());
    push_all(&mut out, &suffix);
    push_all(&mut out, image_type);
    assert(out@ == app_id@ + grid_type.suffix() + image_type@);
    out
}

/// The file name of a grid image: the app id, the mark of the kind that
/// `grid_type` names and the extension `image_type` (dot included).
pub fn get_grid_filename(appid: &str, grid_type: &str, image_type: &str) -> (name: String)
    requires
        kind_of(grid_type@) is Some,
    ensures
        name@ == grid_filename(appid@, kind_of(grid_type@)->Some_0, image_type@),
{
    let kind = GridType::from_name(grid_type).unwrap();
    let out = filename_chars(&chars_of(appid), kind, &chars_of(image_type));
    string_of(&out)
}

fn adjusted_chars(app_id: &Vec<char>, path: &Vec<char>, grid_type: GridType) -> (out: Vec<char>)
    requires
        has_extension(path@),
    ensures
        out@ == grid_filename(app_id@, grid_type, extension(path@)),
{
    proof {
        lemma_last_index_of(path@, '.');
    }
    let dot = find_last(path, '.').unwrap();
    let image_type = tail_chars(path, dot);
    filename_chars(app_id, grid_type, &image_type)
}

/// `name` without its extension: what stands before its last dot, or all
/// of it where it has no dot.
pub open spec fn stem(name: Seq<char>) -> Seq<char> {
    if has_extension(name) {
        name.subrange(0, last_index_of(name, '.'))
    } else {
        name
    }
}

/// The app whose icon a file of the grids directory is: what stands before
/// `_icon` at the end of the file name's stem, where the stem ends so.
pub open spec fn icon_owner(file_name: Seq<char>) -> Option<Seq<char>> {
    if ends_with(stem(file_name), GridType::Icon.suffix()) {
        Some(stem(file_name).subrange(0, stem(file_name).len() - GridType::Icon.suffix().len()))
    } else {
        None
    }
}

/// Tells whose icon a file of the grids directory is, if it is an icon.
pub fn get_icon_owner(file_name: &str) -> (owner: Option<String>)
    ensures
        match owner {
            Some(owner) => icon_owner(file_name@) == Some(owner@),
            None => icon_owner(file_name@) is None,
        },
{
    let name = chars_of(file_name);
    proof {
        lemma_last_index_of(name@, '.');
    }
    let mut kept = name;
    match find_last(&kept, '.') {
        Some(dot) => {
            kept.truncate(dot);
        },
        None => {},
    }
    assert(kept@ == stem(file_name@));
    let suffix = chars_of(GridType::Icon.suffix_str());
    if has_suffix(&kept, &suffix) {
        let keep: usize = kept.len() - suffix.len();
        kept.truncate(keep);
        Some(string_of(&kept))
    } else {
        None
    }
}

/// Whether `path` has an extension.
pub fn path_has_extension(path: &str) -> (found: bool)
    ensures
        found == has_extension(path@),
{
    let chars = chars_of(path);
    proof {
        lemma_last_index_of(chars@, '.');
    }
    find_last(&chars, '.').is_some()
}

/// The file name under which the image at `path` is filed for a slot: the
/// slot's name with the extension of `path`.
pub fn adjust_path(appid: &str, path: &str, grid_type: &str) -> (name: String)
    requires
        has_extension(path@),
        kind_of(grid_type@) is Some,
    ensures
        name@ == grid_filename(appid@, kind_of(grid_type@)->Some_0, extension(path@)),
{
    let kind = GridType::from_name(grid_type).unwrap();
    let out = adjusted_chars(&chars_of(appid), &chars_of(path), kind);
    string_of(&out)
}

fn stored_chars(target: Vec<char>) -> (out: Vec<char>)
    ensures
        out@ == stored_as(target@),
{
    let webp = chars_of(".webp");
    proof {
        reveal_strlit(".webp");
    }
    if has_suffix(&target, &webp) {
        let mut out = target;
        let keep: usize = out.len() - 5;
        out.truncate(keep);
        let jpg = chars_of(".jpg");
        push_all(&mut out, &jpg);
        out
    } else {
        target
    }
}

fn target_chars(
    grids_dir: &Vec<char>,
    app_id: &Vec<char>,
    grid_type: &str,
    source: &Vec<char>,
) -> (target: Vec<char>)
    requires
        source@ != remove_marker() ==> kind_of(grid_type@) is Some && has_extension(source@),
    ensures
        target@ == target_for(grids_dir@, app_id@, grid_type@, source@),
{
    let marker = chars_of("REMOVE");
    if same_chars(source, &marker) {
        marker
    } else {
        let kind = GridType::from_name(grid_type).unwrap();
        let name = normalize_chars(&adjusted_chars(app_id, source, kind));
        let placed = normalize_chars(&join_chars(grids_dir, &name));
        stored_chars(placed)
    }
}

fn find_app_entry<'a>(apps: &'a Vec<AppGrids>, app_id: &String) -> (found: Option<&'a AppGrids>)
    ensures
        match found {
            Some(app) => find_app(apps.deep_view(), app_id@) == Some(app.deep_view()),
            None => find_app(apps.deep_view(), app_id@) is None,
        },
{
    let ghost all = apps.deep_view();
    let mut i: usize = 0;
    assert(all.skip(0) == all);
    while i < apps.len()
        invariant
            i <= apps.len(),
            all == apps.deep_view(),
            find_app(all, app_id@) == find_app(all.skip(i as int), app_id@),
        decreases apps.len() - i,
    {
        assert(all.skip(i as int)[0] == apps@[i as int].deep_view());
        assert(all.skip(i as int).drop_first() == all.skip(i + 1));
        if apps[i].app_id == *app_id {
            return Some(&apps[i]);
        }
        i += 1;
    }
    None
}

fn find_slot_path<'a>(grids: &'a Vec<GridSlot>, grid_type: &String) -> (found: Option<&'a String>)
    ensures
        match found {
            Some(path) => find_slot(grids.deep_view(), grid_type@) == Some(path@),
            None => find_slot(grids.deep_view(), grid_type@) is None,
        },
{
    let ghost all = grids.deep_view();
    let mut i: usize = 0;
    assert(all.skip(0) == all);
    while i < grids.len()
        invariant
            i <= grids.len(),
            all == grids.deep_view(),
            find_slot(all, grid_type@) == find_slot(all.skip(i as int), grid_type@),
        decreases grids.len() - i,
    {
        assert(all.skip(i as int)[0] == grids@[i as int].deep_view());
        assert(all.skip(i as int).drop_first() == all.skip(i + 1));
        if grids[i].grid_type == *grid_type {
            return Some(&grids[i].path);
        }
        i += 1;
    }
    None
}

/// The path that `assignments` holds for a slot, if it lists the slot.
pub fn get_assigned_path<'a>(
    assignments: &'a GridAssignments,
    app_id: &String,
    grid_type: &String,
) -> (found: Option<&'a String>)
    ensures
        match found {
            Some(path) => assigned_path(assignments.deep_view(), app_id@, grid_type@) == Some(
                path@,
            ),
            None => assigned_path(assignments.deep_view(), app_id@, grid_type@) is None,
        },
{
    match find_app_entry(&assignments.apps, app_id) {
        Some(app) => find_slot_path(&app.grids, grid_type),
        None => None,
    }
}

fn previous_chars(original: &GridAssignments, app_id: &String, grid_type: &String) -> (old: Vec<
    char,
>)
    ensures
        old@ == previous_path(original.deep_view(), app_id@, grid_type@),
{
    match get_assigned_path(original, app_id, grid_type) {
        Some(path) => chars_of(path.as_str()),
        None => Vec::new(),
    }
}

fn change_of(grids_dir: &Vec<char>, original: &GridAssignments, app_id: &String, slot: &GridSlot)
    -> (change: Option<ChangedPath>)
    requires
        slot_has_target(original.deep_view(), app_id@, slot.deep_view()),
    ensures
        match change {
            Some(change) => change_for(grids_dir@, original.deep_view(), app_id@, slot.deep_view())
                == Some(change.deep_view()),
            None => change_for(grids_dir@, original.deep_view(), app_id@, slot.deep_view())
                is None,
        },
{
    let old = previous_chars(original, app_id, &slot.grid_type);
    let source = chars_of(slot.path.as_str());
    if same_chars(&source, &old) {
        None
    } else {
        let id = chars_of(app_id.as_str());
        let target = target_chars(grids_dir, &id, slot.grid_type.as_str(), &source);
        Some(
            ChangedPath {
                app_id: app_id.clone(),
                grid_type: slot.grid_type.clone(),
                old_path: string_of(&normalize_chars(&old)),
                target_path: string_of(&target),
                source_path: string_of(&normalize_chars(&source)),
            },
        )
    }
}

/// Compares the paths assigned in `current` with those of `original` and
/// lists what has to change: one record for each slot of `current` whose
/// path is not the one it had before, in the order of `current`. A slot that
/// `original` does not list counts as having had the empty path. The list
/// depends on the three arguments alone.
pub fn filter_paths(grids_dir: &str, current: &GridAssignments, original: &GridAssignments) -> (changed:
    Vec<ChangedPath>)
    requires
        paths_can_be_filtered(current.deep_view(), original.deep_view()),
    ensures
        changed.deep_view() == all_changes(grids_dir@, current.deep_view(), original.deep_view()),
{
    let dir = chars_of(grids_dir);
    let ghost cur = current.deep_view();
    let ghost orig = original.deep_view();
    let mut changed: Vec<ChangedPath> = Vec::new();
    let mut i: usize = 0;
    assert(changed.deep_view() == Seq::<ChangedPathView>::empty());
    while i < current.apps.len()
        invariant
            i <= current.apps.len(),
            cur == current.deep_view(),
            orig == original.deep_view(),
            dir@ == grids_dir@,
            slots_have_targets(cur, orig),
            changed.deep_view() == all_changes(grids_dir@, cur.take(i as int), orig),
        decreases current.apps.len() - i,
    {
        let app = &current.apps[i];
        let ghost before = changed.deep_view();
        let ghost slots = app.grids.deep_view();
        let mut j: usize = 0;
        assert(cur[i as int] == app.deep_view());
        while j < app.grids.len()
            invariant
                j <= app.grids.len(),
                i < cur.len(),
                orig == original.deep_view(),
                dir@ == grids_dir@,
                slots_have_targets(cur, orig),
                cur[i as int] == app.deep_view(),
                slots == app.grids.deep_view(),
                changed.deep_view() == before + app_changes(
                    grids_dir@,
                    orig,
                    app.app_id@,
                    slots.take(j as int),
                ),
            decreases app.grids.len() - j,
        {
            let slot = &app.grids[j];
            let ghost listed = changed.deep_view();
            assert(cur[i as int].grids[j as int] == slot.deep_view());
            assert(slots.take(j + 1).drop_last() == slots.take(j as int));
            assert(slots.take(j + 1).last() == slot.deep_view());
            match change_of(&dir, original, &app.app_id, slot) {
                Some(change) => {
                    changed.push(change);
                    assert(changed.deep_view() == listed.push(change.deep_view()));
                },
                None => {},
            }
            j += 1;
        }
        assert(slots.take(app.grids.len() as int) == slots);
        assert(cur.take(i + 1).drop_last() == cur.take(i as int));
        assert(cur.take(i + 1).last() == app.deep_view());
        i += 1;
    }
    assert(cur.take(current.apps.len() as int) == cur);
    changed
}

/// Whether no two of `grids` are of the same kind.
fn has_distinct_kinds(grids: &Vec<GridSlot>) -> (distinct: bool)
    ensures
        distinct == distinct_kinds(grids.deep_view()),
{
    let ghost all = grids.deep_view();
    let mut n: usize = 0;
    while n < grids.len()
        invariant
            n <= grids.len(),
            all == grids.deep_view(),
            forall|a: int, b: int|
                #![trigger all[a], all[b]]
                0 <= a < b < n ==> all[a].grid_type != all[b].grid_type,
        decreases grids.len() - n,
    {
        let mut m: usize = 0;
        while m < n
            invariant
                m <= n < grids.len(),
                all == grids.deep_view(),
                forall|a: int|
                    0 <= a < m ==> (#[trigger] all[a]).grid_type != all[n as int].grid_type,
            decreases n - m,
        {
            if grids[m].grid_type == grids[n].grid_type {
                assert(all[m as int].grid_type == all[n as int].grid_type);
                return false;
            }
            m += 1;
        }
        n += 1;
    }
    true
}

/// Whether no two of `apps` have the same id.
fn has_distinct_apps(apps: &Vec<AppGrids>) -> (distinct: bool)
    ensures
        distinct == distinct_apps(apps.deep_view()),
{
    let ghost all = apps.deep_view();
    let mut j: usize = 0;
    while j < apps.len()
        invariant
            j <= apps.len(),
            all == apps.deep_view(),
            forall|a: int, b: int|
                #![trigger all[a], all[b]]
                0 <= a < b < j ==> all[a].app_id != all[b].app_id,
        decreases apps.len() - j,
    {
        let mut i: usize = 0;
        while i < j
            invariant
                i <= j < apps.len(),
                all == apps.deep_view(),
                forall|a: int| 0 <= a < i ==> (#[trigger] all[a]).app_id != all[j as int].app_id,
            decreases j - i,
        {
            if apps[i].app_id == apps[j].app_id {
                assert(all[i as int].app_id == all[j as int].app_id);
                return false;
            }
            i += 1;
        }
        j += 1;
    }
    true
}

/// Whether `assignments` lists each slot once: no app twice, and no kind
/// twice within an app.
pub fn has_unique_slots(assignments: &GridAssignments) -> (unique: bool)
    ensures
        unique == unique_slots(assignments.deep_view()),
{
    if !has_distinct_apps(&assignments.apps) {
        return false;
    }
    let ghost all = assignments.deep_view();
    let mut i: usize = 0;
    while i < assignments.apps.len()
        invariant
            i <= assignments.apps.len(),
            all == assignments.deep_view(),
            distinct_apps(all),
            forall|a: int| 0 <= a < i ==> distinct_kinds(#[trigger] all[a].grids),
        decreases assignments.apps.len() - i,
    {
        assert(all[i as int] == assignments.apps@[i as int].deep_view());
        if !has_distinct_kinds(&assignments.apps[i].grids) {
            assert(!distinct_kinds(all[i as int].grids));
            return false;
        }
        i += 1;
    }
    true
}

/// Whether `filter_paths` can be asked for the changes from `original` to
/// `current`: whether `current` lists each slot once, and every slot that
/// changes to a new image names a kind and has a source path with an
/// extension.
pub fn can_filter_paths(current: &GridAssignments, original: &GridAssignments) -> (ok: bool)
    ensures
        ok == paths_can_be_filtered(current.deep_view(), original.deep_view()),
{
    has_unique_slots(current) && have_targets(current, original)
}

/// Whether every slot of `current` can be filed.
fn have_targets(current: &GridAssignments, original: &GridAssignments) -> (ok: bool)
    ensures
        ok == slots_have_targets(current.deep_view(), original.deep_view()),
{
    let ghost cur = current.deep_view();
    let ghost orig = original.deep_view();
    let marker = chars_of("REMOVE");
    let mut i: usize = 0;
    while i < current.apps.len()
        invariant
            i <= current.apps.len(),
            cur == current.deep_view(),
            orig == original.deep_view(),
            marker@ == remove_marker(),
            forall|a: int, b: int|
                #![trigger cur[a].grids[b]]
                0 <= a < i && 0 <= b < cur[a].grids.len() ==> slot_has_target(
                    orig,
                    cur[a].app_id,
                    cur[a].grids[b],
                ),
        decreases current.apps.len() - i,
    {
        let app = &current.apps[i];
        assert(cur[i as int] == app.deep_view());
        let mut j: usize = 0;
        while j < app.grids.len()
            invariant
                j <= app.grids.len(),
                i < cur.len(),
                cur == current.deep_view(),
                orig == original.deep_view(),
                marker@ == remove_marker(),
                cur[i as int] == app.deep_view(),
                forall|b: int|
                    #![trigger cur[i as int].grids[b]]
                    0 <= b < j ==> slot_has_target(orig, cur[i as int].app_id, cur[i as int].grids[b]),
            decreases app.grids.len() - j,
        {
            let slot = &app.grids[j];
            assert(cur[i as int].grids[j as int] == slot.deep_view());
            let old = previous_chars(original, &app.app_id, &slot.grid_type);
            let source = chars_of(slot.path.as_str());
            if !same_chars(&source, &old) && !same_chars(&source, &marker) {
                proof {
                    lemma_last_index_of(source@, '.');
                }
                if GridType::from_name(slot.grid_type.as_str()).is_none() || find_last(
                    &source,
                    '.',
                ).is_none() {
                    assert(!slot_has_target(orig, cur[i as int].app_id, cur[i as int].grids[j as int]));
                    assert(0 <= j < cur[i as int].grids.len());
                    assert(!slots_have_targets(cur, orig));
                    return false;
                }
            }
            j += 1;
        }
        i += 1;
    }
    true
}


/// Where apps are listed once, an app is found under its id.
pub proof fn lemma_find_app(apps: Seq<AppGridsView>, i: int)
    requires
        distinct_apps(apps),
        0 <= i < apps.len(),
    ensures
        find_app(apps, apps[i].app_id) == Some(apps[i]),
    decreases apps.len(),
{
    if apps[0].app_id == apps[i].app_id {
        assert(i == 0) by {
            if i > 0 {
                assert(apps[0].app_id != apps[i].app_id);
            }
        }
    } else {
        let rest = apps.drop_first();
        assert forall|a: int, b: int| 0 <= a < b < rest.len() implies rest[a].app_id
            != rest[b].app_id by {
            assert(rest[a] == apps[a + 1] && rest[b] == apps[b + 1]);
        }
        assert(rest[i - 1] == apps[i]);
        lemma_find_app(rest, i - 1);
    }
}

/// Where kinds are listed once, a slot is found under its kind.
pub proof fn lemma_find_slot(grids: Seq<GridSlotView>, j: int)
    requires
        distinct_kinds(grids),
        0 <= j < grids.len(),
    ensures
        find_slot(grids, grids[j].grid_type) == Some(grids[j].path),
    decreases grids.len(),
{
    if grids[0].grid_type == grids[j].grid_type {
        assert(j == 0) by {
            if j > 0 {
                assert(grids[0].grid_type != grids[j].grid_type);
            }
        }
    } else {
        let rest = grids.drop_first();
        assert forall|a: int, b: int| 0 <= a < b < rest.len() implies rest[a].grid_type
            != rest[b].grid_type by {
            assert(rest[a] == grids[a + 1] && rest[b] == grids[b + 1]);
        }
        assert(rest[j - 1] == grids[j]);
        lemma_find_slot(rest, j - 1);
    }
}

/// Every change of an app stems from one of its slots: the result is the
/// index of a slot whose change is the one listed at `k`.
pub proof fn lemma_app_change_origin(
    grids_dir: Seq<char>,
    original: Seq<AppGridsView>,
    app_id: Seq<char>,
    grids: Seq<GridSlotView>,
    k: int,
) -> (j: int)
    requires
        0 <= k < app_changes(grids_dir, original, app_id, grids).len(),
    ensures
        0 <= j < grids.len(),
        change_for(grids_dir, original, app_id, grids[j]) == Some(
            app_changes(grids_dir, original, app_id, grids)[k],
        ),
    decreases grids.len(),
{
    let before = app_changes(grids_dir, original, app_id, grids.drop_last());
    if k < before.len() {
        let j = lemma_app_change_origin(grids_dir, original, app_id, grids.drop_last(), k);
        assert(grids.drop_last()[j] == grids[j]);
        j
    } else {
        grids.len() - 1
    }
}

/// Every change stems from one slot of `current`: the result is the index
/// of an app and of one of its slots whose change is the one listed at `k`.
pub proof fn lemma_change_origin(
    grids_dir: Seq<char>,
    current: Seq<AppGridsView>,
    original: Seq<AppGridsView>,
    k: int,
) -> (at: (int, int))
    requires
        0 <= k < all_changes(grids_dir, current, original).len(),
    ensures
        0 <= at.0 < current.len(),
        0 <= at.1 < current[at.0].grids.len(),
        change_for(grids_dir, original, current[at.0].app_id, current[at.0].grids[at.1]) == Some(
            all_changes(grids_dir, current, original)[k],
        ),
    decreases current.len(),
{
    let before = all_changes(grids_dir, current.drop_last(), original);
    if k < before.len() {
        let at = lemma_change_origin(grids_dir, current.drop_last(), original, k);
        assert(current.drop_last()[at.0] == current[at.0]);
        at
    } else {
        let app = current.last();
        let j = lemma_app_change_origin(grids_dir, original, app.app_id, app.grids, k - before.len());
        (current.len() - 1, j)
    }
}

/// A slot that keeps the path it had yields no change: where `current`
/// lists each slot once and assigns to the slot of `app_id` and `grid_type`
/// the path that it had in `original` (the empty path, if `original` does
/// not list it), no change names that slot.
pub proof fn lemma_unchanged_slot_yields_no_change(
    grids_dir: Seq<char>,
    current: Seq<AppGridsView>,
    original: Seq<AppGridsView>,
    app_id: Seq<char>,
    grid_type: Seq<char>,
)
    requires
        unique_slots(current),
        assigned_path(current, app_id, grid_type) is Some ==> assigned_path(
            current,
            app_id,
            grid_type,
        ) == Some(previous_path(original, app_id, grid_type)),
    ensures
        forall|k: int|
            0 <= k < all_changes(grids_dir, current, original).len() ==> !({
                let change = #[trigger] all_changes(grids_dir, current, original)[k];
                change.app_id == app_id && change.grid_type == grid_type
            }),
{
    let changes = all_changes(grids_dir, current, original);
    assert forall|k: int| 0 <= k < changes.len() implies !({
        let change = #[trigger] changes[k];
        change.app_id == app_id && change.grid_type == grid_type
    }) by {
        let change = changes[k];
        if change.app_id == app_id && change.grid_type == grid_type {
            let at = lemma_change_origin(grids_dir, current, original, k);
            let app = current[at.0];
            lemma_find_app(current, at.0);
            assert(distinct_kinds(app.grids));
            lemma_find_slot(app.grids, at.1);
            assert(assigned_path(current, app_id, grid_type) == Some(app.grids[at.1].path));
        }
    }
}

/// No two changes of one app name the same kind, where the app lists each
/// kind once.
pub proof fn lemma_app_changes_name_each_kind_once(
    grids_dir: Seq<char>,
    original: Seq<AppGridsView>,
    app_id: Seq<char>,
    grids: Seq<GridSlotView>,
    k: int,
    l: int,
)
    requires
        distinct_kinds(grids),
        0 <= k < l < app_changes(grids_dir, original, app_id, grids).len(),
    ensures
        app_changes(grids_dir, original, app_id, grids)[k].grid_type != app_changes(
            grids_dir,
            original,
            app_id,
            grids,
        )[l].grid_type,
    decreases grids.len(),
{
    let front = grids.drop_last();
    let before = app_changes(grids_dir, original, app_id, front);
    assert forall|m: int, n: int| 0 <= m < n < front.len() implies front[m].grid_type
        != front[n].grid_type by {
        assert(front[m] == grids[m] && front[n] == grids[n]);
    }
    if l < before.len() {
        lemma_app_changes_name_each_kind_once(grids_dir, original, app_id, front, k, l);
    } else {
        let j = lemma_app_change_origin(grids_dir, original, app_id, front, k);
        assert(front[j] == grids[j]);
        assert(grids[j].grid_type != grids[grids.len() - 1].grid_type);
    }
}

/// No two changes name the same slot, where `current` lists each slot
/// once.
pub proof fn lemma_changes_name_each_slot_once(
    grids_dir: Seq<char>,
    current: Seq<AppGridsView>,
    original: Seq<AppGridsView>,
    k: int,
    l: int,
)
    requires
        unique_slots(current),
        0 <= k < l < all_changes(grids_dir, current, original).len(),
    ensures
        !(all_changes(grids_dir, current, original)[k].app_id == all_changes(
            grids_dir,
            current,
            original,
        )[l].app_id && all_changes(grids_dir, current, original)[k].grid_type == all_changes(
            grids_dir,
            current,
            original,
        )[l].grid_type),
    decreases current.len(),
{
    let front = current.drop_last();
    let app = current.last();
    let before = all_changes(grids_dir, front, original);
    assert(unique_slots(front)) by {
        assert forall|a: int, b: int| 0 <= a < b < front.len() implies front[a].app_id
            != front[b].app_id by {
            assert(front[a] == current[a] && front[b] == current[b]);
        }
        assert forall|a: int| 0 <= a < front.len() implies distinct_kinds(
            #[trigger] front[a].grids,
        ) by {
            assert(front[a] == current[a]);
        }
    }
    if l < before.len() {
        lemma_changes_name_each_slot_once(grids_dir, front, original, k, l);
    } else if k < before.len() {
        let at = lemma_change_origin(grids_dir, front, original, k);
        assert(front[at.0] == current[at.0]);
        let j = lemma_app_change_origin(
            grids_dir,
            original,
            app.app_id,
            app.grids,
            l - before.len(),
        );
        assert(current[at.0].app_id != current[current.len() - 1].app_id);
    } else {
        assert(distinct_kinds(app.grids));
        lemma_app_changes_name_each_kind_once(
            grids_dir,
            original,
            app.app_id,
            app.grids,
            k - before.len(),
            l - before.len(),
        );
    }
}

/// The last occurrence of `c` is at `k` where `c` stands there and nowhere
/// behind.
pub proof fn lemma_last_index_of_is(text: Seq<char>, c: char, k: int)
    requires
        0 <= k < text.len(),
        text[k] == c,
        forall|j: int| k < j < text.len() ==> text[j] != c,
    ensures
        last_index_of(text, c) == k,
    decreases text.len(),
{
    if k < text.len() - 1 {
        assert(text.drop_last()[k] == text[k]);
        assert forall|j: int| k < j < text.drop_last().len() implies text.drop_last()[j] != c by {
            assert(text.drop_last()[j] == text[j]);
        }
        lemma_last_index_of_is(text.drop_last(), c, k);
    }
}

/// Only the target is stored under another ending: the change of a slot
/// whose new image ends in `.webp` keeps that ending in its source path and
/// has a target that ends in `.jpg` and not in `.webp`.
pub proof fn lemma_webp_is_stored_as_jpg(
    grids_dir: Seq<char>,
    original: Seq<AppGridsView>,
    app_id: Seq<char>,
    slot: GridSlotView,
)
    requires
        ends_with(slot.path, ".webp"@),
        change_for(grids_dir, original, app_id, slot) is Some,
    ensures
        change_for(grids_dir, original, app_id, slot)->Some_0.source_path == normalized(slot.path),
        ends_with(change_for(grids_dir, original, app_id, slot)->Some_0.source_path, ".webp"@),
        ends_with(change_for(grids_dir, original, app_id, slot)->Some_0.target_path, ".jpg"@),
        !ends_with(change_for(grids_dir, original, app_id, slot)->Some_0.target_path, ".webp"@),
{
    reveal_strlit(".webp");
    reveal_strlit(".jpg");
    reveal_strlit("REMOVE");
    let webp = ".webp"@;
    let jpg = ".jpg"@;
    let path = slot.path;
    let dot = path.len() - 5;
    assert(path.subrange(dot, path.len() as int) == webp);
    assert(webp.len() == 5 && webp[0] == '.' && webp[1] == 'w' && webp[2] == 'e' && webp[3] == 'b'
        && webp[4] == 'p');
    assert(jpg.len() == 4 && jpg[3] == 'g');
    assert(path[dot] == '.' && path[dot + 1] == 'w' && path[dot + 2] == 'e' && path[dot + 3] == 'b'
        && path[dot + 4] == 'p') by {
        let ending = path.subrange(dot, path.len() as int);
        assert(ending[0] == path[dot] && ending[1] == path[dot + 1] && ending[2] == path[dot + 2]
            && ending[3] == path[dot + 3] && ending[4] == path[dot + 4]);
    }
    assert(path != remove_marker()) by {
        assert(remove_marker().len() == 6 && remove_marker()[5] == 'E');
    }
    lemma_last_index_of_is(path, '.', dot);
    assert(extension(path) == webp);
    assert(ends_with(normalized(path), webp)) by {
        assert(normalized(path).subrange(dot, path.len() as int) =~= webp);
    }
    let name = grid_filename(app_id, kind_of(slot.grid_type)->Some_0, extension(path));
    assert(ends_with(name, webp)) by {
        assert(name.subrange(name.len() - 5, name.len() as int) =~= webp);
    }
    let clean = normalized(name);
    assert(ends_with(clean, webp)) by {
        assert forall|i: int| 0 <= i < 5 implies name[name.len() - 5 + i] == webp[i] by {
            assert(name.subrange(name.len() - 5, name.len() as int)[i] == webp[i]);
        }
        assert(clean.subrange(clean.len() - 5, clean.len() as int) =~= webp);
    }
    let placed = joined(grids_dir, clean);
    assert(ends_with(placed, webp)) by {
        assert forall|i: int| 0 <= i < 5 implies clean[clean.len() - 5 + i] == webp[i] by {
            assert(clean.subrange(clean.len() - 5, clean.len() as int)[i] == webp[i]);
        }
        assert(placed.subrange(placed.len() - 5, placed.len() as int) =~= webp);
    }
    let filed = normalized(placed);
    assert(ends_with(filed, webp)) by {
        assert forall|i: int| 0 <= i < 5 implies placed[placed.len() - 5 + i] == webp[i] by {
            assert(placed.subrange(placed.len() - 5, placed.len() as int)[i] == webp[i]);
        }
        assert(filed.subrange(filed.len() - 5, filed.len() as int) =~= webp);
    }
    let target = stored_as(filed);
    assert(target == filed.subrange(0, filed.len() - 5) + jpg);
    assert(ends_with(target, jpg)) by {
        assert(target.subrange(target.len() - 4, target.len() as int) =~= jpg);
    }
    assert(!ends_with(target, webp)) by {
        if target.len() >= 5 {
            assert(target[target.len() - 1] == 'g');
            assert(target.subrange(target.len() - 5, target.len() as int)[4] == 'g');
        }
    }
}

/// The same of every change in the list: the change at `k` stems from a
/// slot of `current` (the result is the index of its app and of the slot),
/// and where the path of that slot ends in `.webp`, the source path of the
/// change is that path with forward slashes and still ends in `.webp`,
/// while its target ends in `.jpg` and not in `.webp`.
pub proof fn lemma_webp_change_is_stored_as_jpg(
    grids_dir: Seq<char>,
    current: Seq<AppGridsView>,
    original: Seq<AppGridsView>,
    k: int,
) -> (at: (int, int))
    requires
        0 <= k < all_changes(grids_dir, current, original).len(),
    ensures
        0 <= at.0 < current.len(),
        0 <= at.1 < current[at.0].grids.len(),
        change_for(grids_dir, original, current[at.0].app_id, current[at.0].grids[at.1]) == Some(
            all_changes(grids_dir, current, original)[k],
        ),
        ends_with(current[at.0].grids[at.1].path, ".webp"@) ==> {
            let change = all_changes(grids_dir, current, original)[k];
            &&& change.source_path == normalized(current[at.0].grids[at.1].path)
            &&& ends_with(change.source_path, ".webp"@)
            &&& ends_with(change.target_path, ".jpg"@)
            &&& !ends_with(change.target_path, ".webp"@)
        },
{
    let at = lemma_change_origin(grids_dir, current, original, k);
    if ends_with(current[at.0].grids[at.1].path, ".webp"@) {
        lemma_webp_is_stored_as_jpg(
            grids_dir,
            original,
            current[at.0].app_id,
            current[at.0].grids[at.1],
        );
    }
    at
}

} // verus!
