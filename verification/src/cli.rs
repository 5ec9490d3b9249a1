//! The command line of the viewer: at most one scene path.

use vstd::prelude::*;

verus! {

/// Which scene the viewer loads.
#[derive(Debug, PartialEq, Eq)]
pub enum SceneChoice<T> {
    /// No argument: the bundled example scene.
    Bundled,
    /// One argument: the scene at that path.
    Path(T),
    /// More than one argument: the command line is misused.
    Usage,
}

/// The scene that the positional arguments (the program name excluded) select.
pub fn scene_from_args<T>(args: Vec<T>) -> (r: SceneChoice<T>)
    ensures
        args@.len() == 0 ==> r == SceneChoice::<T>::Bundled,
        args@.len() == 1 ==> r == SceneChoice::Path(args@[0]),
        args@.len() >= 2 ==> r == SceneChoice::<T>::Usage,
{
    let mut args = args;
    if args.len() == 0 {
        SceneChoice::Bundled
    } else if args.len() == 1 {
        match args.pop() {
            Some(p) => SceneChoice::Path(p),
            None => SceneChoice::Usage,
        }
    } else {
        SceneChoice::Usage
    }
}

} // verus!
