//! Text input of a client: a line of text with a cursor, and the position
//! of the terminal cursor.

use vstd::prelude::*;

verus! {

/// Where the terminal cursor is to be shown, once drawn.
#[derive(Default, Debug)]
pub struct Cursor(pub Option<(u16, u16)>);

impl Cursor {
    pub fn set(&mut self, x: u16, y: u16)
        ensures
            final(self).0 == Some((x, y)),
    {
        self.0 = Some((x, y));
    }

    /// The position, which is then forgotten.
    pub fn take(&mut self) -> (r: Option<(u16, u16)>)
        ensures
            r == old(self).0,
            final(self).0 is None,
    {
        let mut r = None;
        std::mem::swap(&mut r, &mut self.0);
        r
    }
}

/// A line of text being typed, with the cursor's byte position in it.
#[derive(Default, Debug, Clone)]
pub struct InputText {
    pub content: String,
    pub cursor_position: usize,
    pub in_focus: bool,
}

impl InputText {
    pub fn focus(&mut self, focus: bool)
        ensures
            final(self).in_focus == focus,
            final(self).content == old(self).content,
            final(self).cursor_position == old(self).cursor_position,
    {
        self.in_focus = focus;
    }

    pub fn content(&self) -> (r: &str)
        ensures
            r@ == self.content@,
    {
        self.content.as_str()
    }

    /// Replaces the text, and puts the cursor at its end.
    pub fn set_content(&mut self, content: String)
        ensures
            final(self).content == content,
            final(self).cursor_position == vstd::utf8::encode_utf8(content@).len() as usize,
            final(self).in_focus == old(self).in_focus,
    {
        self.cursor_position = content.as_str().len();
        self.content = content;
    }

    pub fn cursor(&self) -> (r: usize)
        ensures
            r == self.cursor_position,
    {
        self.cursor_position
    }

    pub fn has_focus(&self) -> (r: bool)
        ensures
            r == self.in_focus,
    {
        self.in_focus
    }

    /// Takes the text out, leaving the line empty.
    pub fn drain(&mut self) -> (r: String)
        ensures
            r == old(self).content,
            final(self).content@.len() == 0,
            final(self).cursor_position == 0,
            final(self).in_focus == old(self).in_focus,
    {
        let mut content = String::new();
        std::mem::swap(&mut content, &mut self.content);
        self.cursor_position = 0;
        content
    }
}

} // verus!
