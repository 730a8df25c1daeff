use vstd::prelude::*;
use crate::buffer::{Cursor, TextBuffer};

verus! {

/// The append-only typewriter page.
#[derive(Clone, Debug)]
pub struct TypewriterState {
    pub buffer: TextBuffer,
}

impl TypewriterState {
    /// A blank page.
    pub fn new() -> (r: TypewriterState)
        ensures
            r.buffer.text() == seq![Seq::<char>::empty()],
            r.buffer.cursor == (Cursor { line: 0, col: 0 }),
            r.buffer.wf(),
            !r.buffer.modified,
    {
        TypewriterState { buffer: TextBuffer::new() }
    }
}

} // verus!
