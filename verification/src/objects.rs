//! Small pieces of game and application state: sky pointers, the loading
//! state, the world chooser, keyboard input flags and user settings.
use vstd::prelude::*;
use crate::texture::{has_run, last_component};

verus! {

/// Names a sky world model for inclusion in the sky rendering pass.
#[derive(Clone, Debug)]
pub struct SkyPointerObject {
    /// Name of this pointer entity / the sky world model it points to.
    pub name: String,
    /// Explicit target model name (may equal `name`; empty when absent).
    pub sky_object_name: String,
}

impl SkyPointerObject {
    /// The world-model name this pointer targets: `sky_object_name` when it
    /// is not empty, otherwise `name`.
    pub fn target_name(&self) -> (r: &str)
        ensures
            r@ == if self.sky_object_name@.len() > 0 {
                self.sky_object_name@
            } else {
                self.name@
            },
    {
        if !self.sky_object_name.as_str().is_empty() {
            self.sky_object_name.as_str()
        } else {
            self.name.as_str()
        }
    }
}

/// Application loading state.
#[derive(Clone, Debug, PartialEq)]
pub enum LoadingState {
    Loading(String),
    Ready,
}

impl Default for LoadingState {
    fn default() -> (s: Self)
        ensures
            s is Ready,
    {
        LoadingState::Ready
    }
}

/// World chooser UI state: the list of world files, the highlighted entry,
/// and a world waiting to be loaded.
#[derive(Clone, Debug)]
pub struct WorldChooser {
    pub visible: bool,
    pub worlds: Vec<String>,
    pub selected_index: usize,
    pub pending_load: Option<String>,
}

/// A path whose components are read the same way on every platform: it
/// holds no `\` and no `:` (so no drive or other prefix), does not begin
/// with `//`, and its last `/`-separated piece is a plain name (not empty,
/// not `.`, not `..`).
pub open spec fn plain_file_path(path: Seq<char>) -> bool {
    &&& !path.contains('\\')
    &&& !path.contains(':')
    &&& !(path.len() >= 2 && path[0] == '/' && path[1] == '/')
    &&& last_component(path).len() > 0
    &&& last_component(path) != seq!['.']
    &&& last_component(path) != seq!['.', '.']
}

/// Returns the final component of `path`, if there is one, as
/// `std::path::Path::file_name` gives it (and `None` when that component is
/// not valid UTF-8).  Stated is what holds on every platform: a component
/// is a non-empty piece of the path; without `\` in the path, `/` is the
/// only separator and the component holds none; and for a plain path (see
/// `plain_file_path`) the component is the piece after the last `/`.
/// Which component comes back for other paths, and when there is none, is
/// left unsaid: prefixes, the other separators and the components skipped
/// depend on the platform.
#[verifier::external_body]
fn path_file_name(path: &str) -> (r: Option<String>)
    ensures
        r matches Some(n) ==> n@.len() > 0 && has_run(path@, n@),
        r matches Some(n) ==> (!path@.contains('\\') ==> !n@.contains('/')),
        plain_file_path(path@) ==> r is Some && r->0@ == last_component(path@),
{
    std::path::Path::new(path).file_name().and_then(|n| n.to_str()).map(|n| n.to_string())
}

impl WorldChooser {
    /// A hidden chooser over the world files `worlds`, first entry selected.
    pub fn new(worlds: Vec<String>) -> (c: Self)
        ensures
            !c.visible,
            c.worlds@ == worlds@,
            c.selected_index == 0,
            c.pending_load is None,
    {
        WorldChooser { visible: false, worlds, selected_index: 0, pending_load: None }
    }

    /// Shows a hidden chooser and hides a shown one.
    pub fn toggle(&mut self)
        ensures
            final(self).visible == !old(self).visible,
            final(self).worlds@ == old(self).worlds@,
            final(self).selected_index == old(self).selected_index,
            final(self).pending_load == old(self).pending_load,
    {
        self.visible = !self.visible;
    }

    /// Selects entry `index` when it exists; otherwise nothing changes.
    pub fn select_index(&mut self, index: usize)
        ensures
            final(self).selected_index == if index < old(self).worlds@.len() {
                index
            } else {
                old(self).selected_index
            },
            final(self).visible == old(self).visible,
            final(self).worlds@ == old(self).worlds@,
            final(self).pending_load == old(self).pending_load,
    {
        if index < self.worlds.len() {
            self.selected_index = index;
        }
    }

    /// The selected world, hiding the chooser; `None` (and no change) when
    /// the selection is past the end of the list.
    pub fn confirm_selection(&mut self) -> (r: Option<String>)
        ensures
            old(self).selected_index < old(self).worlds@.len() ==> r is Some && r->0@ == old(
                self,
            ).worlds@[old(self).selected_index as int]@ && !final(self).visible,
            old(self).selected_index >= old(self).worlds@.len() ==> r is None && final(self).visible
                == old(self).visible,
            final(self).worlds@ == old(self).worlds@,
            final(self).selected_index == old(self).selected_index,
            final(self).pending_load == old(self).pending_load,
    {
        if self.selected_index < self.worlds.len() {
            let world = self.worlds[self.selected_index].clone();
            self.visible = false;
            Some(world)
        } else {
            None
        }
    }

    /// The name to show for a world file: the last component of its path,
    /// or the path itself when it has none.  For a plain path such as
    /// `REZ/WORLDS/x/level.dat` that is the piece after the last `/`.
    pub fn get_world_display_name(path: &str) -> (r: String)
        ensures
            plain_file_path(path@) ==> r@ == last_component(path@),
            r@ == path@ || (r@.len() > 0 && has_run(path@, r@) && (!path@.contains('\\')
                ==> !r@.contains('/'))),
    {
        match path_file_name(path) {
            Some(name) => name,
            None => path.to_string(),
        }
    }

    /// Takes the world waiting to be loaded, leaving none.
    pub fn take_pending_load(&mut self) -> (r: Option<String>)
        ensures
            r == old(self).pending_load,
            final(self).pending_load is None,
            final(self).visible == old(self).visible,
            final(self).worlds@ == old(self).worlds@,
            final(self).selected_index == old(self).selected_index,
    {
        self.pending_load.take()
    }
}

/// Keyboard movement flags.
#[derive(Clone, Copy, Debug, PartialEq, Eq, Structural)]
pub struct InputState {
    pub forward: bool,
    pub backward: bool,
    pub left: bool,
    pub right: bool,
    pub up: bool,
    pub down: bool,
}

impl Default for InputState {
    fn default() -> (s: Self)
        ensures
            !s.forward && !s.backward && !s.left && !s.right && !s.up && !s.down,
    {
        InputState { forward: false, backward: false, left: false, right: false, up: false, down: false }
    }
}

/// User settings.
#[derive(Clone, Copy, Debug, PartialEq, Eq, Structural)]
pub struct Settings {
    pub dynamic_lighting: bool,
}

impl Default for Settings {
    fn default() -> (s: Self)
        ensures
            s.dynamic_lighting,
    {
        Settings { dynamic_lighting: true }
    }
}

} // verus!
