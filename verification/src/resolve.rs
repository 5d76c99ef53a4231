//! Identifier resolution.
//!
//! During lowering the compiler keeps an ordered stack of scope frames,
//! each mapping a name to the local slot it was assigned. Lookup searches
//! frames innermost-to-outermost, so an inner declaration shadows an outer
//! one; a name bound in no frame falls through to the global table.

use vstd::prelude::*;
use crate::ast::Func;

verus! {

/// One scope frame, as lowering sees it: the names declared in one block,
/// each with its slot, in declaration order.
pub type FrameView = Seq<(String, usize)>;

/// The whole scope stack, outermost frame first.
pub type ScopeView = Seq<FrameView>;

/// The slot bound to `name` in one frame, if any. Later entries win,
/// though a frame never holds the same name twice.
pub open spec fn frame_lookup(fr: FrameView, name: Seq<char>) -> Option<usize>
    decreases fr.len(),
{
    if fr.len() == 0 {
        None
    } else if fr.last().0@ == name {
        Some(fr.last().1)
    } else {
        frame_lookup(fr.drop_last(), name)
    }
}

/// The slot bound to `name` in the innermost frame that declares it.
pub open spec fn scope_lookup(frames: ScopeView, name: Seq<char>) -> Option<usize>
    decreases frames.len(),
{
    if frames.len() == 0 {
        None
    } else {
        match frame_lookup(frames.last(), name) {
            Some(slot) => Some(slot),
            None => scope_lookup(frames.drop_last(), name),
        }
    }
}

/// A frame holds `name` exactly when `frame_lookup` finds it.
pub proof fn lemma_frame_lookup_none(fr: FrameView, name: Seq<char>)
    ensures
        frame_lookup(fr, name) is None <==> forall|i: int|
            0 <= i < fr.len() ==> (#[trigger] fr[i]).0@ != name,
    decreases fr.len(),
{
    if fr.len() > 0 {
        lemma_frame_lookup_none(fr.drop_last(), name);
        assert(forall|i: int| 0 <= i < fr.len() - 1 ==> fr.drop_last()[i] == fr[i]);
        assert(fr.last() == fr[fr.len() - 1]);
    }
}

/// The index of the first entry of the global table carrying `name`.
pub open spec fn glob_find(globs: Seq<(String, Option<i32>)>, name: Seq<char>) -> Option<int>
    decreases globs.len(),
{
    if globs.len() == 0 {
        None
    } else if globs[0].0@ == name {
        Some(0)
    } else {
        match glob_find(globs.subrange(1, globs.len() as int), name) {
            Some(i) => Some(i + 1),
            None => None,
        }
    }
}

/// What `glob_find` returns, characterized entry-wise: a hit is the first
/// matching index, a miss means no entry matches.
pub proof fn lemma_glob_find(globs: Seq<(String, Option<i32>)>, name: Seq<char>)
    ensures
        match glob_find(globs, name) {
            Some(i) => 0 <= i < globs.len() && globs[i].0@ == name
                && forall|j: int| 0 <= j < i ==> (#[trigger] globs[j]).0@ != name,
            None => forall|j: int| 0 <= j < globs.len() ==> (#[trigger] globs[j]).0@ != name,
        },
    decreases globs.len(),
{
    if globs.len() > 0 && globs[0].0@ != name {
        let rest = globs.subrange(1, globs.len() as int);
        lemma_glob_find(rest, name);
        match glob_find(rest, name) {
            Some(i) => {
                assert(globs[i + 1] == rest[i]);
                assert forall|j: int| 0 <= j < i + 1 implies (#[trigger] globs[j]).0@ != name by {
                    if j > 0 {
                        assert(rest[j - 1] == globs[j]);
                    }
                }
            }
            None => {
                assert forall|j: int| 0 <= j < globs.len() implies (#[trigger] globs[j]).0@
                    != name by {
                    if j > 0 {
                        assert(rest[j - 1] == globs[j]);
                    }
                }
            }
        }
    }
}

/// A first matching index is what `glob_find` returns.
pub proof fn lemma_glob_find_at(globs: Seq<(String, Option<i32>)>, name: Seq<char>, i: int)
    requires
        0 <= i < globs.len(),
        globs[i].0@ == name,
        forall|j: int| 0 <= j < i ==> (#[trigger] globs[j]).0@ != name,
    ensures
        glob_find(globs, name) == Some(i),
    decreases globs.len(),
{
    if i > 0 {
        let rest = globs.subrange(1, globs.len() as int);
        assert(forall|j: int| 0 <= j < rest.len() ==> rest[j] == globs[j + 1]);
        lemma_glob_find_at(rest, name, i - 1);
    }
}

/// The index of the first entry of the (merged) function table carrying
/// `name`.
pub open spec fn func_find(fs: Seq<Func>, name: Seq<char>) -> Option<int>
    decreases fs.len(),
{
    if fs.len() == 0 {
        None
    } else if fs[0].name@ == name {
        Some(0)
    } else {
        match func_find(fs.subrange(1, fs.len() as int), name) {
            Some(i) => Some(i + 1),
            None => None,
        }
    }
}

/// What `func_find` returns, characterized entry-wise.
pub proof fn lemma_func_find(fs: Seq<Func>, name: Seq<char>)
    ensures
        match func_find(fs, name) {
            Some(i) => 0 <= i < fs.len() && fs[i].name@ == name
                && forall|j: int| 0 <= j < i ==> (#[trigger] fs[j]).name@ != name,
            None => forall|j: int| 0 <= j < fs.len() ==> (#[trigger] fs[j]).name@ != name,
        },
    decreases fs.len(),
{
    if fs.len() > 0 && fs[0].name@ != name {
        let rest = fs.subrange(1, fs.len() as int);
        lemma_func_find(rest, name);
        match func_find(rest, name) {
            Some(i) => {
                assert(fs[i + 1] == rest[i]);
                assert forall|j: int| 0 <= j < i + 1 implies (#[trigger] fs[j]).name@ != name by {
                    if j > 0 {
                        assert(rest[j - 1] == fs[j]);
                    }
                }
            }
            None => {
                assert forall|j: int| 0 <= j < fs.len() implies (#[trigger] fs[j]).name@
                    != name by {
                    if j > 0 {
                        assert(rest[j - 1] == fs[j]);
                    }
                }
            }
        }
    }
}

/// A first matching index is what `func_find` returns.
pub proof fn lemma_func_find_at(fs: Seq<Func>, name: Seq<char>, i: int)
    requires
        0 <= i < fs.len(),
        fs[i].name@ == name,
        forall|j: int| 0 <= j < i ==> (#[trigger] fs[j]).name@ != name,
    ensures
        func_find(fs, name) == Some(i),
    decreases fs.len(),
{
    if i > 0 {
        let rest = fs.subrange(1, fs.len() as int);
        assert(forall|j: int| 0 <= j < rest.len() ==> rest[j] == fs[j + 1]);
        lemma_func_find_at(rest, name, i - 1);
    }
}

} // verus!
