use vstd::prelude::*;
use crate::buffer::{buffer_lines, Cursor, TextBuffer};

verus! {

/// A named document open for free-form editing.
#[derive(Clone, Debug)]
pub struct EditorState {
    pub buffer: TextBuffer,
    pub doc_name: String,
}

impl EditorState {
    /// An empty, unnamed document.
    pub fn new() -> (r: EditorState)
        ensures
            r.buffer.text() == seq![Seq::<char>::empty()],
            r.buffer.cursor == (Cursor { line: 0, col: 0 }),
            r.buffer.wf(),
            !r.buffer.modified,
            r.doc_name@ == Seq::<char>::empty(),
    {
        EditorState { buffer: TextBuffer::new(), doc_name: String::new() }
    }

    /// An empty document called `name`.
    pub fn with_name(name: &str) -> (r: EditorState)
        ensures
            r.buffer.text() == seq![Seq::<char>::empty()],
            r.buffer.cursor == (Cursor { line: 0, col: 0 }),
            r.buffer.wf(),
            !r.buffer.modified,
            r.doc_name@ == name@,
    {
        EditorState { buffer: TextBuffer::new(), doc_name: name.to_owned() }
    }

    /// The document `name` holding the lines of `content`.
    pub fn with_content(name: &str, content: &str) -> (r: EditorState)
        ensures
            r.buffer.text() == buffer_lines(content@),
            r.buffer.cursor == (Cursor { line: 0, col: 0 }),
            r.buffer.wf(),
            !r.buffer.modified,
            r.doc_name@ == name@,
    {
        EditorState { buffer: TextBuffer::from_text(content), doc_name: name.to_owned() }
    }
}

} // verus!
