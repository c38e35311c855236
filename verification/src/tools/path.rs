//! Paths, taken apart as the machine does it and put together again.
//!
//! Everything here is lexical: no file is looked at, and links are not followed.

use std::path::{Component, Path};

use vstd::prelude::*;

use super::{ToolError, ToolErrorView};
use crate::text::{is_blank, join, same_text, split};

verus! {

/// A path without `.`, and without `..` but for those with which a path that does
/// not begin at a root climbs out of where it begins.
#[derive(Debug)]
pub struct FilePath {
    /// Whether the machine separates with `\`.
    pub backslash: bool,
    /// The drive or share that the path is on, where the machine has such; empty
    /// otherwise.
    pub prefix: String,
    /// Whether the path begins at a root.
    pub rooted: bool,
    pub parts: Vec<String>,
}

pub struct PathView {
    pub backslash: bool,
    pub prefix: Seq<char>,
    pub rooted: bool,
    pub parts: Seq<Seq<char>>,
}

impl View for FilePath {
    type V = PathView;

    open spec fn view(&self) -> PathView {
        PathView {
            backslash: self.backslash,
            prefix: self.prefix@,
            rooted: self.rooted,
            parts: crate::texts_view(self.parts@),
        }
    }
}

// ------------------------------------------------------------------- taking apart

/// One component of a path.
#[derive(Debug)]
pub enum PathComponent {
    /// A drive or a share.
    Prefix(String),
    /// The root.
    Root,
    /// `.`
    Current,
    /// `..`
    Parent,
    /// A name.
    Normal(String),
}

pub enum ComponentView {
    Prefix(Seq<char>),
    Root,
    Current,
    Parent,
    Normal(Seq<char>),
}

impl View for PathComponent {
    type V = ComponentView;

    open spec fn view(&self) -> ComponentView {
        match self {
            PathComponent::Prefix(text) => ComponentView::Prefix(text@),
            PathComponent::Root => ComponentView::Root,
            PathComponent::Current => ComponentView::Current,
            PathComponent::Parent => ComponentView::Parent,
            PathComponent::Normal(name) => ComponentView::Normal(name@),
        }
    }
}

pub open spec fn components_view(components: Seq<PathComponent>) -> Seq<ComponentView> {
    components.map_values(|component: PathComponent| component@)
}

/// A path that begins at the root.
pub open spec fn is_rooted(path: Seq<char>) -> bool {
    path.len() > 0 && path[0] == '/'
}

/// A step of a path that leads somewhere.
pub open spec fn leads(step: Seq<char>) -> bool {
    step.len() > 0 && step != "."@
}

/// The steps of a path. Repeated separators and `.` lead nowhere.
pub open spec fn steps(path: Seq<char>) -> Seq<Seq<char>> {
    crate::text::pieces(path, '/').filter(|step: Seq<char>| leads(step))
}

/// The component that a step is.
pub open spec fn step_component(step: Seq<char>) -> ComponentView {
    if step == ".."@ {
        ComponentView::Parent
    } else {
        ComponentView::Normal(step)
    }
}

/// What a path begins with: the root, or a `.` that is its first step.
pub open spec fn first_component(path: Seq<char>) -> Seq<ComponentView> {
    if is_rooted(path) {
        seq![ComponentView::Root]
    } else if crate::text::pieces(path, '/')[0] == "."@ {
        seq![ComponentView::Current]
    } else {
        Seq::empty()
    }
}

/// The components of a path where `/` alone separates.
pub open spec fn slash_components(path: Seq<char>) -> Seq<ComponentView> {
    first_component(path) + steps(path).map_values(|step: Seq<char>| step_component(step))
}

/// A path that is taken apart in the same way wherever `/` separates: it has no
/// `\` and no drive or share.
pub open spec fn plain(path: Seq<char>) -> bool {
    &&& !path.contains('\\')
    &&& !path.contains(':')
    &&& !(path.len() > 1 && path[0] == '/' && path[1] == '/')
}

/// `Path::components` of std, each component as it is. A text without `\` and
/// without anything that could be a prefix is taken apart at each `/`, on Unix and
/// on Windows alike. How other texts are taken apart rests on the machine and is
/// left unsaid.
#[verifier::external_body]
fn components(path: &str) -> (taken: Vec<PathComponent>)
    ensures
        plain(path@) ==> components_view(taken@) == slash_components(path@),
{
    let convert = |component: Component<'_>| match component {
        Component::Prefix(prefix) => PathComponent::Prefix(prefix.as_os_str().to_string_lossy().into_owned()),
        Component::RootDir => PathComponent::Root,
        Component::CurDir => PathComponent::Current,
        Component::ParentDir => PathComponent::Parent,
        Component::Normal(name) => PathComponent::Normal(name.to_string_lossy().into_owned()),
    };
    Path::new(path).components().map(convert).collect()
}

/// What a machine that separates with `/` alone takes a lone `\` for: a name.
pub open spec fn backslash_name() -> Seq<ComponentView> {
    seq![ComponentView::Normal("\\"@)]
}

/// Whether a machine separates with `\`, given what it takes a lone `\` for.
pub fn backslash_separates(lone: &Vec<PathComponent>) -> (separates: bool)
    ensures
        separates == (components_view(lone@) != backslash_name()),
{
    if lone.len() == 1 {
        match &lone[0] {
            PathComponent::Normal(name) => {
                if same_text(name.as_str(), "\\") {
                    assert(components_view(lone@) == backslash_name());
                    return false;
                }
            },
            _ => {},
        }
    }
    proof {
        if components_view(lone@) == backslash_name() {
            assert(components_view(lone@).len() == 1);
            assert(components_view(lone@)[0] == lone@[0]@);
        }
    }
    true
}

/// Whether this machine separates with `\`. That rests on the machine: either
/// answer is possible, and what follows from it is stated of both.
pub(crate) fn this_machine_separates_with_backslash() -> (separates: bool) {
    backslash_separates(&components("\\"))
}

/// What a path says: what it is on, whether it begins at a root, and its steps.
#[derive(Debug)]
pub struct PathParts {
    pub prefix: String,
    pub rooted: bool,
    pub names: Vec<String>,
}

pub struct PartsView {
    pub prefix: Seq<char>,
    pub rooted: bool,
    pub names: Seq<Seq<char>>,
}

impl View for PathParts {
    type V = PartsView;

    open spec fn view(&self) -> PartsView {
        PartsView {
            prefix: self.prefix@,
            rooted: self.rooted,
            names: crate::texts_view(self.names@),
        }
    }
}

impl PartsView {
    /// A path that says nothing.
    pub open spec fn empty() -> PartsView {
        PartsView { prefix: Seq::empty(), rooted: false, names: Seq::empty() }
    }

    /// What a path says with one more component.
    pub open spec fn with(self, component: ComponentView) -> PartsView {
        match component {
            ComponentView::Prefix(prefix) => PartsView { prefix, ..self },
            ComponentView::Root => PartsView { rooted: true, ..self },
            ComponentView::Current => self,
            ComponentView::Parent => PartsView { names: self.names.push(".."@), ..self },
            ComponentView::Normal(name) => PartsView { names: self.names.push(name), ..self },
        }
    }
}

/// What components say, one after the other.
pub open spec fn gathered(components: Seq<ComponentView>) -> PartsView
    decreases components.len(),
{
    if components.len() == 0 {
        PartsView::empty()
    } else {
        gathered(components.drop_last()).with(components.last())
    }
}

/// What a path says where `/` alone separates.
pub open spec fn slash_parts(path: Seq<char>) -> PartsView {
    PartsView { prefix: Seq::empty(), rooted: is_rooted(path), names: steps(path) }
}

/// What a machine may take a path to say: where `/` alone separates, and with a
/// plain path anywhere, it is taken apart at each `/`.
pub open spec fn reads(backslash: bool, path: Seq<char>, parts: PartsView) -> bool {
    !backslash || plain(path) ==> parts == slash_parts(path)
}

proof fn lemma_gathered_steps(first: Seq<ComponentView>, steps: Seq<Seq<char>>)
    ensures
        gathered(
            first + steps.map_values(|step: Seq<char>| step_component(step)),
        ) == (PartsView {
            names: gathered(first).names + steps,
            ..gathered(first)
        }),
    decreases steps.len(),
{
    let convert = |step: Seq<char>| step_component(step);
    let all = first + steps.map_values(convert);
    let begun = gathered(first);
    if steps.len() == 0 {
        assert(all == first);
        assert(begun.names + steps == begun.names);
    } else {
        let fewer = steps.drop_last();
        lemma_gathered_steps(first, fewer);
        assert(all.drop_last() == first + fewer.map_values(convert));
        assert(all.last() == step_component(steps.last()));
        assert((begun.names + fewer).push(steps.last()) == begun.names + steps);
    }
}

/// What the components of a path say where `/` alone separates.
proof fn lemma_slash_components(path: Seq<char>)
    ensures
        gathered(slash_components(path)) == slash_parts(path),
{
    let first = first_component(path);
    lemma_gathered_steps(first, steps(path));
    reveal_with_fuel(gathered, 2);
    if first.len() > 0 {
        assert(first.drop_last() == Seq::<ComponentView>::empty());
    }
    assert(Seq::<Seq<char>>::empty() + steps(path) == steps(path));
}

/// What components say.
pub fn parts_from(components: &Vec<PathComponent>) -> (parts: PathParts)
    ensures
        parts@ == gathered(components_view(components@)),
{
    let mut parts = PathParts { prefix: String::new(), rooted: false, names: Vec::new() };
    let ghost every = components_view(components@);
    assert(parts@.names == PartsView::empty().names);
    let mut i: usize = 0;
    while i < components.len()
        invariant
            i <= components.len(),
            every == components_view(components@),
            parts@ == gathered(every.take(i as int)),
        decreases components.len() - i,
    {
        let ghost so_far = parts@;
        assert(every.take(i + 1).drop_last() == every.take(i as int));
        match &components[i] {
            PathComponent::Prefix(prefix) => {
                parts.prefix = prefix.clone();
            },
            PathComponent::Root => {
                parts.rooted = true;
            },
            PathComponent::Current => {},
            PathComponent::Parent => {
                parts.names.push("..".to_owned());
                assert(parts@.names == so_far.names.push(".."@));
            },
            PathComponent::Normal(name) => {
                parts.names.push(name.clone());
                assert(parts@.names == so_far.names.push(name@));
            },
        }
        i = i + 1;
    }
    assert(every.take(every.len() as int) == every);
    parts
}

fn starts_at_root(path: &str) -> (rooted: bool)
    ensures
        rooted == is_rooted(path@),
{
    !path.is_empty() && path.get_char(0) == '/'
}

/// What a path says where `/` alone separates.
pub fn slash_parts_of(path: &str) -> (parts: PathParts)
    ensures
        parts@ == slash_parts(path@),
{
    let pieces = split(path, '/');
    let ghost every = crate::texts_view(pieces@);
    let ghost keeps = |step: Seq<char>| leads(step);
    let mut names: Vec<String> = Vec::new();
    let mut i: usize = 0;
    proof {
        reveal(Seq::filter);
        assert(every.take(0).filter(keeps) == Seq::<Seq<char>>::empty());
        assert(crate::texts_view(names@) == Seq::<Seq<char>>::empty());
    }
    while i < pieces.len()
        invariant
            i <= pieces.len(),
            every == crate::texts_view(pieces@),
            keeps == (|step: Seq<char>| leads(step)),
            crate::texts_view(names@) == every.take(i as int).filter(keeps),
        decreases pieces.len() - i,
    {
        let ghost so_far = crate::texts_view(names@);
        let ghost before = every.take(i as int);
        let step = &pieces[i];
        proof {
            reveal(Seq::filter);
            assert(every.take(i + 1) == before.push(step@));
            assert(before.push(step@).drop_last() == before);
        }
        if !step.as_str().is_empty() && !same_text(step.as_str(), ".") {
            names.push(step.clone());
            assert(crate::texts_view(names@) == so_far.push(step@));
        }
        i = i + 1;
    }
    assert(every.take(every.len() as int) == every);
    PathParts { prefix: String::new(), rooted: starts_at_root(path), names }
}

/// What a path says, given whether the machine separates with `\`. Where it does,
/// the machine is asked.
fn read_path(backslash: bool, path: &str) -> (parts: PathParts)
    ensures
        reads(backslash, path@, parts@),
{
    if !backslash {
        return slash_parts_of(path);
    }
    proof {
        lemma_slash_components(path@);
    }
    parts_from(&components(path))
}

// ------------------------------------------------------------------ putting together

/// Where a step leads from a place: `..` takes back the step before it, and every
/// other step goes on. With no step to take back, `..` stays at the root, and
/// climbs on in a path that does not begin there.
pub open spec fn went(rooted: bool, place: Seq<Seq<char>>, step: Seq<char>) -> Seq<Seq<char>> {
    if step != ".."@ {
        place.push(step)
    } else if place.len() > 0 && place.last() != ".."@ {
        place.drop_last()
    } else if rooted {
        place
    } else {
        place.push(step)
    }
}

/// Where steps lead from a place.
pub open spec fn walked(
    rooted: bool,
    place: Seq<Seq<char>>,
    steps: Seq<Seq<char>>,
) -> Seq<Seq<char>>
    decreases steps.len(),
{
    if steps.len() == 0 {
        place
    } else {
        went(rooted, walked(rooted, place, steps.drop_last()), steps.last())
    }
}

/// Where the steps of a path lead by themselves.
pub open spec fn reached(path: Seq<char>) -> Seq<Seq<char>> {
    walked(is_rooted(path), Seq::empty(), steps(path))
}

/// A path seen from the working directory, where `/` alone separates: one that
/// begins at the root stands by itself, any other goes on from there.
pub open spec fn resolved(cwd: Seq<char>, path: Seq<char>) -> PathView {
    if is_rooted(path) {
        PathView {
            backslash: false,
            prefix: Seq::empty(),
            rooted: true,
            parts: reached(path),
        }
    } else {
        PathView {
            backslash: false,
            prefix: Seq::empty(),
            rooted: is_rooted(cwd),
            parts: walked(is_rooted(cwd), reached(cwd), steps(path)),
        }
    }
}

/// A path seen from the working directory, given what both say: one that is on
/// something of its own stands by itself, one that only begins at a root begins at
/// that of what the working directory is on, and any other goes on from there.
pub open spec fn together(backslash: bool, cwd: PartsView, path: PartsView) -> PathView {
    if path.prefix.len() > 0 {
        PathView {
            backslash,
            prefix: path.prefix,
            rooted: path.rooted,
            parts: walked(path.rooted, Seq::empty(), path.names),
        }
    } else if path.rooted {
        PathView {
            backslash,
            prefix: cwd.prefix,
            rooted: true,
            parts: walked(true, Seq::empty(), path.names),
        }
    } else {
        PathView {
            backslash,
            prefix: cwd.prefix,
            rooted: cwd.rooted,
            parts: walked(
                cwd.rooted,
                walked(cwd.rooted, Seq::empty(), cwd.names),
                path.names,
            ),
        }
    }
}

/// The place that a path means from the working directory, on a machine that
/// separates with `\` or on one that does not. Where `/` alone separates, and for
/// plain paths anywhere, that is what [`resolved`] says. Otherwise it is put
/// together from what the machine takes both paths to say.
pub open spec fn means(
    backslash: bool,
    cwd: Seq<char>,
    path: Seq<char>,
    place: PathView,
) -> bool {
    &&& place.backslash == backslash
    &&& !backslash ==> place == resolved(cwd, path)
    &&& plain(cwd) && plain(path) ==> place == (PathView { backslash, ..resolved(cwd, path) })
    &&& exists|c: PartsView, p: PartsView| #[trigger]
        reads(backslash, cwd, c) && #[trigger] reads(backslash, path, p) && place == together(
            backslash,
            c,
            p,
        )
}

impl PathView {
    /// What stands between the parts of a path.
    pub open spec fn separator(self) -> Seq<char> {
        if self.backslash {
            "\\"@
        } else {
            "/"@
        }
    }

    /// The path as text.
    pub open spec fn text(self) -> Seq<char> {
        let path = crate::text::joined(self.parts, self.separator());
        if self.rooted {
            self.prefix + self.separator() + path
        } else {
            self.prefix + path
        }
    }

    /// The directory that the path is in. A root, and a path without parts, are in
    /// none.
    pub open spec fn parent(self) -> Option<PathView> {
        if self.parts.len() == 0 {
            None
        } else {
            Some(PathView { parts: self.parts.drop_last(), ..self })
        }
    }
}

/// Go steps from a place.
fn walk(rooted: bool, place: Vec<String>, steps: &Vec<String>) -> (reached: Vec<String>)
    ensures
        crate::texts_view(reached@) == walked(
            rooted,
            crate::texts_view(place@),
            crate::texts_view(steps@),
        ),
{
    let ghost every = crate::texts_view(steps@);
    let ghost from = crate::texts_view(place@);
    let mut reached = place;
    let mut i: usize = 0;
    while i < steps.len()
        invariant
            i <= steps.len(),
            every == crate::texts_view(steps@),
            crate::texts_view(reached@) == walked(rooted, from, every.take(i as int)),
        decreases steps.len() - i,
    {
        let ghost so_far = crate::texts_view(reached@);
        let step = &steps[i];
        assert(every.take(i + 1).drop_last() == every.take(i as int));
        if same_text(step.as_str(), "..") {
            if reached.len() > 0 && !same_text(reached[reached.len() - 1].as_str(), "..") {
                let _ = reached.pop();
                assert(crate::texts_view(reached@) == so_far.drop_last());
            } else if !rooted {
                reached.push(step.clone());
                assert(crate::texts_view(reached@) == so_far.push(step@));
            }
        } else {
            reached.push(step.clone());
            assert(crate::texts_view(reached@) == so_far.push(step@));
        }
        i = i + 1;
    }
    assert(every.take(every.len() as int) == every);
    reached
}

/// The place that a path means from the working directory, given what both say.
pub fn place_of(backslash: bool, cwd: &PathParts, path: &PathParts) -> (place: FilePath)
    ensures
        place@ == together(backslash, cwd@, path@),
{
    let nowhere: Vec<String> = Vec::new();
    assert(crate::texts_view(nowhere@) == Seq::<Seq<char>>::empty());
    if !path.prefix.as_str().is_empty() {
        FilePath {
            backslash,
            prefix: path.prefix.clone(),
            rooted: path.rooted,
            parts: walk(path.rooted, nowhere, &path.names),
        }
    } else if path.rooted {
        FilePath {
            backslash,
            prefix: cwd.prefix.clone(),
            rooted: true,
            parts: walk(true, nowhere, &path.names),
        }
    } else {
        FilePath {
            backslash,
            prefix: cwd.prefix.clone(),
            rooted: cwd.rooted,
            parts: walk(cwd.rooted, walk(cwd.rooted, nowhere, &cwd.names), &path.names),
        }
    }
}

/// Resolve a tool path against the working directory and normalize `.` and `..`
/// lexically, so tools do not wander off by accident, given whether the machine
/// separates with `\`.
pub fn resolve_on(backslash: bool, cwd: &str, path: &str) -> (place: Result<
    FilePath,
    ToolError,
>)
    ensures
        match place {
            Ok(place) => !crate::text::blank(path@) && means(backslash, cwd@, path@, place@),
            Err(error) => crate::text::blank(path@) && error@ == ToolErrorView::EmptyPath,
        },
{
    if is_blank(path) {
        return Err(ToolError::EmptyPath);
    }
    let from = read_path(backslash, cwd);
    let to = read_path(backslash, path);
    let place = place_of(backslash, &from, &to);
    assert(reads(backslash, cwd@, from@) && reads(backslash, path@, to@));
    Ok(place)
}

/// Resolve a tool path against the working directory on this machine: see
/// [`resolve_on`]. Which kind of machine this is shows in the place.
pub fn resolve(cwd: &str, path: &str) -> (place: Result<FilePath, ToolError>)
    ensures
        match place {
            Ok(place) => !crate::text::blank(path@) && means(
                place.backslash,
                cwd@,
                path@,
                place@,
            ),
            Err(error) => crate::text::blank(path@) && error@ == ToolErrorView::EmptyPath,
        },
{
    resolve_on(this_machine_separates_with_backslash(), cwd, path)
}

impl FilePath {
    /// The path as text.
    pub fn text(&self) -> (text: String)
        ensures
            text@ == self@.text(),
    {
        let separator = if self.backslash {
            "\\"
        } else {
            "/"
        };
        let mut text = self.prefix.clone();
        if self.rooted {
            text.append(separator);
        }
        text.append(join(&self.parts, separator).as_str());
        text
    }

    /// The directory that the path is in.
    pub fn parent(&self) -> (parent: Option<FilePath>)
        ensures
            match parent {
                Some(parent) => self@.parent() == Some(parent@),
                None => self@.parent() is None,
            },
    {
        if self.parts.len() == 0 {
            return None;
        }
        let mut parts: Vec<String> = Vec::new();
        let mut i: usize = 0;
        while i < self.parts.len() - 1
            invariant
                i < self.parts.len(),
                parts@.len() == i,
                forall|j: int| 0 <= j < i ==> (#[trigger] parts@[j])@ == self.parts@[j]@,
            decreases self.parts.len() - i,
        {
            parts.push(self.parts[i].clone());
            i = i + 1;
        }
        let parent = FilePath {
            backslash: self.backslash,
            prefix: self.prefix.clone(),
            rooted: self.rooted,
            parts,
        };
        assert(parent@.parts == self@.parts.drop_last());
        Some(parent)
    }
}

// --------------------------------------------------------------------- laws

/// A path that begins at the root means the same file from everywhere.
pub proof fn rooted_paths_stand_by_themselves(a: Seq<char>, b: Seq<char>, path: Seq<char>)
    requires
        is_rooted(path),
    ensures
        resolved(a, path) == resolved(b, path),
{
}

/// Steps that never turn back only ever lead deeper.
proof fn lemma_straight_on(rooted: bool, place: Seq<Seq<char>>, steps: Seq<Seq<char>>)
    requires
        !steps.contains(".."@),
    ensures
        walked(rooted, place, steps) == place + steps,
    decreases steps.len(),
{
    if steps.len() > 0 {
        let before = steps.drop_last();
        assert(!before.contains(".."@)) by {
            if before.contains(".."@) {
                let i = choose|i: int| 0 <= i < before.len() && before[i] == ".."@;
                assert(steps[i] == ".."@);
            }
        }
        lemma_straight_on(rooted, place, before);
        assert(steps.contains(steps.last()));
        assert((place + before).push(steps.last()) == place + steps);
    }
    assert(walked(rooted, place, steps) == place + steps);
}

/// A relative path without `..` stays below the working directory.
pub proof fn paths_without_dots_stay_below(cwd: Seq<char>, path: Seq<char>)
    requires
        !is_rooted(path),
        !steps(path).contains(".."@),
    ensures
        resolved(cwd, path).parts == reached(cwd) + steps(path),
        resolved(cwd, path).rooted == is_rooted(cwd),
{
    lemma_straight_on(is_rooted(cwd), reached(cwd), steps(path));
}

/// The steps to a place that is named without detours: each leads somewhere, and
/// none is `..`, but for those that a path that does not begin at the root begins
/// with.
pub open spec fn direct(rooted: bool, parts: Seq<Seq<char>>) -> bool {
    &&& forall|i: int| 0 <= i < parts.len() ==> leads(#[trigger] parts[i])
    &&& rooted ==> !parts.contains(".."@)
    &&& forall|i: int, j: int|
        0 <= i <= j < parts.len() && (#[trigger] parts[j]) == ".."@ ==> (#[trigger] parts[i])
            == ".."@
}

proof fn lemma_steps_lead(path: Seq<char>)
    ensures
        forall|i: int| 0 <= i < steps(path).len() ==> leads(#[trigger] steps(path)[i]),
{
    let keeps = |step: Seq<char>| leads(step);
    assert forall|i: int| 0 <= i < steps(path).len() implies leads(#[trigger] steps(path)[i]) by {
        crate::text::pieces(path, '/').lemma_filter_pred(keeps, i);
    }
}

proof fn lemma_went_is_direct(rooted: bool, place: Seq<Seq<char>>, step: Seq<char>)
    requires
        direct(rooted, place),
        leads(step),
    ensures
        direct(rooted, went(rooted, place, step)),
{
    let after = went(rooted, place, step);
    assert forall|i: int| 0 <= i < after.len() implies leads(#[trigger] after[i]) by {
        if i < place.len() {
            assert(leads(place[i]));
        }
    }
    if rooted && after.contains(".."@) {
        let i = choose|i: int| 0 <= i < after.len() && after[i] == ".."@;
        assert(i < place.len() && place[i] == ".."@);
        assert(place.contains(".."@));
    }
    assert forall|i: int, j: int|
        0 <= i <= j < after.len() && (#[trigger] after[j]) == ".."@ implies (#[trigger] after[i])
        == ".."@ by {
        if j < place.len() {
            assert(place[j] == ".."@);
            assert(place[i] == ".."@);
        } else if i < place.len() {
            assert(place[place.len() - 1] == ".."@);
            assert(place[i] == ".."@);
        }
    }
}

proof fn lemma_walked_is_direct(rooted: bool, place: Seq<Seq<char>>, steps: Seq<Seq<char>>)
    requires
        direct(rooted, place),
        forall|i: int| 0 <= i < steps.len() ==> leads(#[trigger] steps[i]),
    ensures
        direct(rooted, walked(rooted, place, steps)),
    decreases steps.len(),
{
    if steps.len() > 0 {
        let before = steps.drop_last();
        assert forall|i: int| 0 <= i < before.len() implies leads(#[trigger] before[i]) by {
            assert(leads(steps[i]));
        }
        lemma_walked_is_direct(rooted, place, before);
        assert(leads(steps[steps.len() - 1]));
        lemma_went_is_direct(rooted, walked(rooted, place, before), steps.last());
    }
}

/// A resolved path takes no detours: `.` and doubled separators are gone, a path
/// that begins at the root holds no `..`, and any other holds it only where it
/// climbs out of where it begins.
pub proof fn resolved_paths_are_direct(cwd: Seq<char>, path: Seq<char>)
    ensures
        direct(resolved(cwd, path).rooted, resolved(cwd, path).parts),
{
    lemma_steps_lead(cwd);
    lemma_steps_lead(path);
    lemma_walked_is_direct(is_rooted(path), Seq::empty(), steps(path));
    lemma_walked_is_direct(is_rooted(cwd), Seq::empty(), steps(cwd));
    lemma_walked_is_direct(is_rooted(cwd), reached(cwd), steps(path));
}

/// The parent of the root is the root.
pub proof fn nothing_is_above_the_root(place: Seq<Seq<char>>, climbs: Seq<Seq<char>>)
    requires
        direct(true, place),
        climbs.len() >= place.len(),
        forall|i: int| 0 <= i < climbs.len() ==> (#[trigger] climbs[i]) == ".."@,
    ensures
        walked(true, place, climbs) == Seq::<Seq<char>>::empty(),
{
    lemma_climbing(place, climbs);
}

proof fn lemma_climbing(place: Seq<Seq<char>>, climbs: Seq<Seq<char>>)
    requires
        direct(true, place),
        forall|i: int| 0 <= i < climbs.len() ==> (#[trigger] climbs[i]) == ".."@,
    ensures
        walked(true, place, climbs) == if climbs.len() >= place.len() {
            Seq::<Seq<char>>::empty()
        } else {
            place.take(place.len() - climbs.len())
        },
    decreases climbs.len(),
{
    if climbs.len() == 0 {
        assert(place.take(place.len() as int) == place);
        assert(place.len() == 0 ==> place == Seq::<Seq<char>>::empty());
    } else {
        let before = climbs.drop_last();
        assert forall|i: int| 0 <= i < before.len() implies (#[trigger] before[i]) == ".."@ by {
            assert(climbs[i] == ".."@);
        }
        lemma_climbing(place, before);
        assert(climbs[climbs.len() - 1] == ".."@);
        let here = walked(true, place, before);
        if here.len() > 0 {
            assert(place.contains(place[here.len() - 1]));
            assert(here.last() == place[here.len() - 1]);
            assert(here.drop_last() == place.take(here.len() - 1));
            assert(here.len() == 1 ==> here.drop_last() == Seq::<Seq<char>>::empty());
        }
    }
}

/// In a path that does not begin at the root, climbing out is never forgotten:
/// from where it begins, each `..` goes one further up.
pub proof fn climbing_out_adds_up(climbs: Seq<Seq<char>>)
    requires
        forall|i: int| 0 <= i < climbs.len() ==> (#[trigger] climbs[i]) == ".."@,
    ensures
        walked(false, Seq::empty(), climbs) == climbs,
    decreases climbs.len(),
{
    if climbs.len() > 0 {
        let before = climbs.drop_last();
        assert forall|i: int| 0 <= i < before.len() implies (#[trigger] before[i]) == ".."@ by {
            assert(climbs[i] == ".."@);
        }
        climbing_out_adds_up(before);
        assert(climbs[climbs.len() - 1] == ".."@);
        if before.len() > 0 {
            assert(climbs[before.len() - 1] == ".."@);
        }
        assert(before.push(climbs.last()) == climbs);
    }
}

/// Going into a directory and back out again leads nowhere.
pub proof fn a_step_and_its_return_cancel_out(
    rooted: bool,
    place: Seq<Seq<char>>,
    step: Seq<char>,
)
    requires
        leads(step),
        step != ".."@,
    ensures
        walked(rooted, place, seq![step, ".."@]) == place,
{
    let steps = seq![step, ".."@];
    assert(steps.drop_last() == seq![step]);
    assert(seq![step].drop_last() == Seq::<Seq<char>>::empty());
    reveal_with_fuel(walked, 3);
    assert(place.push(step).drop_last() == place);
}

// Reading a resolved path back.

/// Parts that are joined with separators come apart again.
proof fn lemma_pieces_of_joined(front: Seq<char>, parts: Seq<Seq<char>>)
    requires
        parts.len() > 0,
        forall|i: int| 0 <= i < parts.len() ==> !(#[trigger] parts[i]).contains('/'),
        front.len() == 0 || front.last() == '/',
    ensures
        crate::text::pieces(front + crate::text::joined(parts, "/"@), '/')
            == crate::text::ended_pieces(front, '/') + parts,
    decreases parts.len(),
{
    reveal_strlit("/");
    assert("/"@ == seq!['/']);
    let text = front + crate::text::joined(parts, "/"@);
    assert(!parts.last().contains('/')) by {
        assert(!parts[parts.len() - 1].contains('/'));
    }
    if parts.len() == 1 {
        crate::text::lemma_pieces_of_part(front, parts[0], '/');
        assert(crate::text::last_piece(front, '/') + parts[0] == parts[0]);
        assert(crate::text::pieces(text, '/') == crate::text::ended_pieces(front, '/') + parts);
    } else {
        let fewer = parts.drop_last();
        assert forall|i: int| 0 <= i < fewer.len() implies !(#[trigger] fewer[i]).contains('/') by {
            assert(!parts[i].contains('/'));
        }
        lemma_pieces_of_joined(front, fewer);
        let before = front + crate::text::joined(fewer, "/"@);
        let ended = before.push('/');
        assert(ended.drop_last() == before);
        assert(text == ended + parts.last());
        crate::text::lemma_pieces_of_part(ended, parts.last(), '/');
        assert(crate::text::last_piece(ended, '/') + parts.last() == parts.last());
        assert(crate::text::ended_pieces(ended, '/') == crate::text::pieces(before, '/'));
        assert(crate::text::pieces(text, '/') == crate::text::ended_pieces(front, '/') + parts);
    }
}

proof fn lemma_filter_all(parts: Seq<Seq<char>>)
    requires
        forall|i: int| 0 <= i < parts.len() ==> leads(#[trigger] parts[i]),
    ensures
        parts.filter(|step: Seq<char>| leads(step)) == parts,
    decreases parts.len(),
{
    reveal(Seq::filter);
    if parts.len() > 0 {
        let before = parts.drop_last();
        assert forall|i: int| 0 <= i < before.len() implies leads(#[trigger] before[i]) by {
            assert(leads(parts[i]));
        }
        lemma_filter_all(before);
        assert(leads(parts.last())) by {
            assert(leads(parts[parts.len() - 1]));
        }
        assert(before.push(parts.last()) == parts);
    }
}

proof fn lemma_walked_keeps_separators_out(
    rooted: bool,
    place: Seq<Seq<char>>,
    steps: Seq<Seq<char>>,
)
    requires
        forall|i: int| 0 <= i < place.len() ==> !(#[trigger] place[i]).contains('/'),
        forall|i: int| 0 <= i < steps.len() ==> !(#[trigger] steps[i]).contains('/'),
    ensures
        forall|i: int|
            0 <= i < walked(rooted, place, steps).len() ==> !(#[trigger] walked(
                rooted,
                place,
                steps,
            )[i]).contains('/'),
    decreases steps.len(),
{
    if steps.len() > 0 {
        let fewer = steps.drop_last();
        assert forall|i: int| 0 <= i < fewer.len() implies !(#[trigger] fewer[i]).contains('/') by {
            assert(!steps[i].contains('/'));
        }
        lemma_walked_keeps_separators_out(rooted, place, fewer);
        let before = walked(rooted, place, fewer);
        let after = walked(rooted, place, steps);
        assert forall|i: int| 0 <= i < after.len() implies !(#[trigger] after[i]).contains('/') by {
            if i < before.len() {
                assert(!before[i].contains('/'));
            } else {
                assert(!steps[steps.len() - 1].contains('/'));
            }
        }
    }
}

proof fn lemma_steps_have_no_separator(path: Seq<char>)
    ensures
        forall|i: int| 0 <= i < steps(path).len() ==> !(#[trigger] steps(path)[i]).contains('/'),
{
    let keeps = |step: Seq<char>| leads(step);
    let all = crate::text::pieces(path, '/');
    crate::text::lemma_pieces_hold_no_end(path, '/');
    assert forall|i: int| 0 <= i < steps(path).len() implies !(
    #[trigger] steps(path)[i]).contains('/') by {
        let step = steps(path)[i];
        assert(steps(path).contains(step));
        all.lemma_filter_contains_rev(keeps, step);
        let j = choose|j: int| 0 <= j < all.len() && all[j] == step;
        if j < all.len() - 1 {
            assert(all[j] == crate::text::ended_pieces(path, '/')[j]);
        }
    }
}

/// The text of a path that begins at the root, where `/` alone separates.
pub open spec fn rooted_text(parts: Seq<Seq<char>>) -> Seq<char> {
    (PathView { backslash: false, prefix: Seq::empty(), rooted: true, parts }).text()
}

/// The steps of the text of a path that begins at the root.
proof fn lemma_steps_of_text(parts: Seq<Seq<char>>)
    requires
        forall|i: int| 0 <= i < parts.len() ==> leads(#[trigger] parts[i]),
        forall|i: int| 0 <= i < parts.len() ==> !(#[trigger] parts[i]).contains('/'),
    ensures
        is_rooted(rooted_text(parts)),
        steps(rooted_text(parts)) == parts,
{
    let text = rooted_text(parts);
    let keeps = |step: Seq<char>| leads(step);
    let nothing = Seq::<char>::empty();
    reveal_strlit("/");
    assert("/"@ == seq!['/']);
    assert("/"@.drop_last() == nothing);
    assert(crate::text::ended_pieces("/"@, '/') == seq![nothing]) by {
        reveal_with_fuel(crate::text::ended_pieces, 2);
    }
    assert(seq![nothing].filter(keeps) == Seq::<Seq<char>>::empty()) by {
        reveal_with_fuel(Seq::filter, 2);
        assert(seq![nothing].drop_last() == Seq::<Seq<char>>::empty());
    }
    if parts.len() == 0 {
        assert(text == "/"@);
        assert(crate::text::pieces(text, '/') == seq![nothing] + seq![nothing]);
        Seq::filter_distributes_over_add(seq![nothing], seq![nothing], keeps);
        assert(steps(text) == parts);
    } else {
        lemma_pieces_of_joined("/"@, parts);
        assert(crate::text::pieces(text, '/') == seq![nothing] + parts);
        Seq::filter_distributes_over_add(seq![nothing], parts, keeps);
        lemma_filter_all(parts);
        assert(steps(text) == parts);
    }
}

proof fn lemma_direct_steps(parts: Seq<Seq<char>>)
    requires
        direct(true, parts),
    ensures
        walked(true, Seq::empty(), parts) == parts,
{
    lemma_straight_on(true, Seq::empty(), parts);
    assert(Seq::<Seq<char>>::empty() + parts == parts);
}

/// The text of a resolved path that begins at the root resolves to that path.
proof fn lemma_resolved_text(cwd: Seq<char>, path: Seq<char>, elsewhere: Seq<char>)
    requires
        resolved(cwd, path).rooted,
    ensures
        resolved(elsewhere, resolved(cwd, path).text()) == resolved(cwd, path),
{
    let parts = resolved(cwd, path).parts;
    resolved_paths_are_direct(cwd, path);
    lemma_steps_have_no_separator(cwd);
    lemma_steps_have_no_separator(path);
    if is_rooted(path) {
        lemma_walked_keeps_separators_out(true, Seq::empty(), steps(path));
    } else {
        lemma_walked_keeps_separators_out(true, Seq::empty(), steps(cwd));
        lemma_walked_keeps_separators_out(true, reached(cwd), steps(path));
    }
    lemma_steps_of_text(parts);
    lemma_direct_steps(parts);
}

/// Resolving a place that was resolved changes nothing, from wherever it is done,
/// where `/` alone separates: a path that begins at the root, or is seen from a
/// working directory that does, resolves to a place that begins at the root, on no
/// drive, without `.` and without `..`, and its text resolves to that place.
pub proof fn resolving_twice_is_resolving_once(
    cwd: Seq<char>,
    path: Seq<char>,
    place: PathView,
    elsewhere: Seq<char>,
    again: PathView,
)
    requires
        is_rooted(cwd) || is_rooted(path),
        means(false, cwd, path, place),
        means(false, elsewhere, place.text(), again),
    ensures
        place.rooted,
        place.prefix == Seq::<char>::empty(),
        !place.parts.contains("."@),
        !place.parts.contains(".."@),
        is_rooted(place.text()),
        !crate::text::blank(place.text()),
        again == place,
{
    resolved_paths_are_direct(cwd, path);
    lemma_resolved_text(cwd, path, elsewhere);
    reveal_strlit("/");
    assert(place.text()[0] == '/');
    assert(!crate::text::is_white(place.text()[0]));
    if place.parts.contains("."@) {
        let i = choose|i: int| 0 <= i < place.parts.len() && place.parts[i] == "."@;
        assert(leads(place.parts[i]));
    }
}

// What a path means, separator by separator.

proof fn lemma_steps_concat(first: Seq<char>, second: Seq<char>)
    ensures
        steps(first.push('/') + second) == steps(first) + steps(second),
{
    let ended = first.push('/');
    let keeps = |step: Seq<char>| leads(step);
    assert(ended.drop_last() == first);
    crate::text::lemma_pieces_concat(ended, second, '/');
    assert(crate::text::last_piece(ended, '/') + second == second);
    assert(crate::text::pieces(ended + second, '/') == crate::text::pieces(first, '/')
        + crate::text::pieces(second, '/'));
    Seq::filter_distributes_over_add(
        crate::text::pieces(first, '/'),
        crate::text::pieces(second, '/'),
        keeps,
    );
}

proof fn lemma_steps_of_name(name: Seq<char>)
    requires
        !name.contains('/'),
    ensures
        steps(name) == if leads(name) {
            seq![name]
        } else {
            Seq::empty()
        },
{
    let nothing = Seq::<char>::empty();
    let keeps = |step: Seq<char>| leads(step);
    crate::text::lemma_pieces_of_part(nothing, name, '/');
    assert(nothing + name == name);
    assert(crate::text::pieces(name, '/') == seq![name]);
    reveal_with_fuel(Seq::filter, 2);
    assert(seq![name].drop_last() == Seq::<Seq<char>>::empty());
    assert(seq![name].filter(keeps) == if leads(name) {
        seq![name]
    } else {
        Seq::empty()
    });
}

proof fn lemma_walked_concat(
    rooted: bool,
    place: Seq<Seq<char>>,
    first: Seq<Seq<char>>,
    second: Seq<Seq<char>>,
)
    ensures
        walked(rooted, place, first + second) == walked(
            rooted,
            walked(rooted, place, first),
            second,
        ),
    decreases second.len(),
{
    if second.len() == 0 {
        assert(first + second == first);
    } else {
        lemma_walked_concat(rooted, place, first, second.drop_last());
        assert((first + second).drop_last() == first + second.drop_last());
    }
}

/// A path that does not begin with a separator means, from a working directory that
/// does, what it means written behind that directory, from wherever that is looked
/// at.
pub proof fn a_relative_path_goes_on_from_the_working_directory(
    cwd: Seq<char>,
    path: Seq<char>,
    elsewhere: Seq<char>,
)
    requires
        cwd.len() > 0,
        cwd[0] == '/',
        path.len() == 0 || path[0] != '/',
    ensures
        resolved(cwd, path) == resolved(elsewhere, cwd.push('/') + path),
{
    lemma_steps_concat(cwd, path);
    lemma_walked_concat(true, Seq::empty(), steps(cwd), steps(path));
    assert((cwd.push('/') + path)[0] == '/');
}

/// An empty path means the working directory, and a lone separator the root.
pub proof fn the_shortest_paths(cwd: Seq<char>, elsewhere: Seq<char>)
    ensures
        resolved(cwd, seq!['/']).rooted,
        resolved(cwd, seq!['/']).parts == Seq::<Seq<char>>::empty(),
        cwd.len() > 0 && cwd[0] == '/' ==> resolved(cwd, Seq::empty()) == resolved(elsewhere, cwd),
{
    let nothing = Seq::<char>::empty();
    lemma_steps_of_name(nothing);
    lemma_steps_concat(nothing, nothing);
    assert(nothing.push('/') + nothing == seq!['/']);
    assert(Seq::<Seq<char>>::empty() + Seq::<Seq<char>>::empty() == Seq::<Seq<char>>::empty());
}

/// One more separator at the end of a path changes nothing.
pub proof fn a_separator_at_the_end_changes_nothing(cwd: Seq<char>, path: Seq<char>)
    requires
        path.len() > 0,
    ensures
        resolved(cwd, path.push('/')) == resolved(cwd, path),
{
    let nothing = Seq::<char>::empty();
    lemma_steps_of_name(nothing);
    lemma_steps_concat(path, nothing);
    assert(path.push('/') + nothing == path.push('/'));
    assert(steps(path) + Seq::<Seq<char>>::empty() == steps(path));
}

/// One more name behind a separator: `.` changes nothing, `..` takes back the name
/// before it, or stays at the root, or climbs out of a path that does not begin
/// there, and any other name, whatever its characters, is one more part.
pub proof fn one_more_name_is_one_more_step(cwd: Seq<char>, path: Seq<char>, name: Seq<char>)
    requires
        path.len() == 0 || path.last() == '/',
        name.len() > 0,
        !name.contains('/'),
    ensures
        ({
            let before = resolved(cwd, path);
            let after = resolved(cwd, path + name);
            &&& after.backslash == before.backslash
            &&& after.prefix == before.prefix
            &&& after.rooted == before.rooted
            &&& name == "."@ ==> after.parts == before.parts
            &&& name == ".."@ ==> after.parts == if before.parts.len() > 0 && before.parts.last()
                != ".."@ {
                before.parts.drop_last()
            } else if before.rooted {
                before.parts
            } else {
                before.parts.push(".."@)
            }
            &&& name != "."@ && name != ".."@ ==> after.parts == before.parts.push(name)
        }),
{
    let nothing = Seq::<char>::empty();
    let none = Seq::<Seq<char>>::empty();
    let more = steps(name);
    lemma_steps_of_name(name);
    lemma_steps_of_name(nothing);
    reveal_strlit(".");
    reveal_strlit("..");
    assert("."@.len() == 1 && ".."@.len() == 2);
    if path.len() == 0 {
        assert(path == nothing);
        assert(path + name == name);
        assert(name[0] != '/') by {
            assert(name.contains(name[0]));
        }
        assert(none + more == more);
    } else {
        let start = path.drop_last();
        assert(path == start.push('/') + nothing);
        assert(path + name == start.push('/') + name);
        lemma_steps_concat(start, nothing);
        lemma_steps_concat(start, name);
        assert(steps(start) + none == steps(start));
        assert(steps(path + name) == steps(path) + more);
        assert((path + name)[0] == path[0]);
    }
    assert(steps(path + name) == steps(path) + more);
    lemma_walked_concat(is_rooted(path), none, steps(path), more);
    lemma_walked_concat(is_rooted(cwd), reached(cwd), steps(path), more);
    let before = resolved(cwd, path);
    assert(resolved(cwd, path + name).parts == walked(before.rooted, before.parts, more));
    reveal_with_fuel(walked, 2);
    if leads(name) {
        assert(more.drop_last() == none);
    }
}

/// The text of a path: what it is on, a separator if it begins at a root, and its
/// parts with a separator between them.
pub proof fn the_text_of_a_path_is_its_parts(
    backslash: bool,
    prefix: Seq<char>,
    rooted: bool,
    parts: Seq<Seq<char>>,
    name: Seq<char>,
)
    ensures
        ({
            let separator = if backslash {
                seq!['\\']
            } else {
                seq!['/']
            };
            let none = PathView { backslash, prefix, rooted, parts: Seq::empty() };
            let one = PathView { backslash, prefix, rooted, parts: seq![name] };
            let some = PathView { backslash, prefix, rooted, parts };
            let more = PathView { backslash, prefix, rooted, parts: parts.push(name) };
            &&& none.text() == if rooted {
                prefix + separator
            } else {
                prefix
            }
            &&& one.text() == none.text() + name
            &&& parts.len() > 0 ==> more.text() == some.text() + separator + name
        }),
{
    reveal_strlit("/");
    reveal_strlit("\\");
    assert("/"@ == seq!['/']);
    assert("\\"@ == seq!['\\']);
    let separator = if backslash {
        seq!['\\']
    } else {
        seq!['/']
    };
    let none = PathView { backslash, prefix, rooted, parts: Seq::empty() };
    let one = PathView { backslash, prefix, rooted, parts: seq![name] };
    let some = PathView { backslash, prefix, rooted, parts };
    let more = PathView { backslash, prefix, rooted, parts: parts.push(name) };
    crate::text::joined_texts_stand_one_behind_the_other(parts, name, separator);
    assert(none.text() == if rooted {
        prefix + separator
    } else {
        prefix
    });
    if parts.len() > 0 {
        assert(more.text() == some.text() + separator + name);
    }
}

/// The directory that a path is in is the path without its last part.
pub proof fn a_path_is_in_its_directory(path: PathView, name: Seq<char>)
    ensures
        (PathView { parts: path.parts.push(name), ..path }).parent() == Some(path),
        path.parts.len() == 0 ==> path.parent() is None,
{
    assert(path.parts.push(name).drop_last() == path.parts);
}

/// What components say, one more at a time: a prefix is what the path is on, a root
/// makes it begin there, `.` says nothing, and `..` and names are steps, as they
/// are.
pub proof fn components_say_one_thing_each(components: Seq<ComponentView>, text: Seq<char>)
    ensures
        ({
            let so_far = gathered(components);
            &&& gathered(components.push(ComponentView::Prefix(text))) == (PartsView {
                prefix: text,
                rooted: so_far.rooted,
                names: so_far.names,
            })
            &&& gathered(components.push(ComponentView::Root)) == (PartsView {
                prefix: so_far.prefix,
                rooted: true,
                names: so_far.names,
            })
            &&& gathered(components.push(ComponentView::Current)) == so_far
            &&& gathered(components.push(ComponentView::Parent)) == (PartsView {
                prefix: so_far.prefix,
                rooted: so_far.rooted,
                names: so_far.names.push(".."@),
            })
            &&& gathered(components.push(ComponentView::Normal(text))) == (PartsView {
                prefix: so_far.prefix,
                rooted: so_far.rooted,
                names: so_far.names.push(text),
            })
        }),
        gathered(Seq::empty()) == (PartsView {
            prefix: Seq::empty(),
            rooted: false,
            names: Seq::empty(),
        }),
{
    assert(components.push(ComponentView::Prefix(text)).drop_last() == components);
    assert(components.push(ComponentView::Root).drop_last() == components);
    assert(components.push(ComponentView::Current).drop_last() == components);
    assert(components.push(ComponentView::Parent).drop_last() == components);
    assert(components.push(ComponentView::Normal(text)).drop_last() == components);
}

/// Paths that never turn back, put together where there are drives and shares: one
/// that is on a drive stands by itself, one that only begins at a root begins at
/// that of the working directory's drive, and any other goes on from the working
/// directory.
pub proof fn paths_on_drives_go_together(backslash: bool, cwd: PartsView, path: PartsView)
    requires
        !cwd.names.contains(".."@),
        !path.names.contains(".."@),
    ensures
        together(backslash, cwd, path) == if path.prefix.len() > 0 {
            PathView {
                backslash,
                prefix: path.prefix,
                rooted: path.rooted,
                parts: path.names,
            }
        } else if path.rooted {
            PathView { backslash, prefix: cwd.prefix, rooted: true, parts: path.names }
        } else {
            PathView {
                backslash,
                prefix: cwd.prefix,
                rooted: cwd.rooted,
                parts: cwd.names + path.names,
            }
        },
{
    let none = Seq::<Seq<char>>::empty();
    lemma_straight_on(path.rooted, none, path.names);
    lemma_straight_on(true, none, path.names);
    lemma_straight_on(cwd.rooted, none, cwd.names);
    lemma_straight_on(cwd.rooted, cwd.names, path.names);
    assert(none + path.names == path.names);
    assert(none + cwd.names == cwd.names);
}

/// What a path means is one place: where `/` alone separates, the one that the laws
/// of steps and names give, and for paths without `\`, drives and shares the same
/// one, written with `\`, where that separates.
pub proof fn a_path_means_one_place(
    backslash: bool,
    cwd: Seq<char>,
    path: Seq<char>,
    place: PathView,
)
    requires
        means(backslash, cwd, path, place),
        !backslash || (!cwd.contains('\\') && !cwd.contains(':') && !path.contains('\\')
            && !path.contains(':') && !(cwd.len() > 1 && cwd[0] == '/' && cwd[1] == '/') && !(
        path.len() > 1 && path[0] == '/' && path[1] == '/')),
    ensures
        place.backslash == backslash,
        place.prefix == resolved(cwd, path).prefix,
        place.rooted == resolved(cwd, path).rooted,
        place.parts == resolved(cwd, path).parts,
        resolved(cwd, path).prefix.len() == 0,
{
}

/// A place is seen with everything it holds.
pub proof fn places_are_seen_as_they_are(path: FilePath)
    ensures
        path@.backslash == path.backslash,
        path@.prefix == path.prefix@,
        path@.rooted == path.rooted,
        path@.parts.len() == path.parts@.len(),
        forall|i: int| 0 <= i < path.parts@.len() ==> (#[trigger] path@.parts[i])
            == path.parts@[i]@,
{
}

/// A lone `\` is one name where `/` alone separates.
pub proof fn a_lone_backslash_is_a_name()
    ensures
        backslash_name().len() == 1,
        backslash_name()[0] == ComponentView::Normal(seq!['\\']),
{
    reveal_strlit("\\");
    assert("\\"@ == seq!['\\']);
}

} // verus!
