//! The terminal split into three sections: a header, the file view and the
//! status log. What each section holds; drawing it is left to the caller.

use vstd::prelude::*;
use crate::editor_model::print_model;

verus! {

pub struct TerminalController {
    header: Header,
    file_view: FileView,
    status_log: StatusLog,
}

pub struct Header {
    text: String,
    lines: u16,
}

pub struct FileView {
    text: String,
    lines: u16,
}

/// Messages at the bottom of the screen; it keeps at most `lines - 1`.
pub struct StatusLog {
    log: Vec<String>,
    lines: u16,
}

impl View for TerminalController {
    /// The three sections.
    type V = ((Seq<char>, u16), (Seq<char>, u16), (Seq<Seq<char>>, u16));

    closed spec fn view(&self) -> Self::V {
        (self.header@, self.file_view@, self.status_log@)
    }
}

impl TerminalController {
    /// The header, which is what the screen draws first.
    pub fn header(&self) -> (res: &Header)
        ensures
            res@ == self@.0,
    {
        &self.header
    }
}

impl View for Header {
    /// The text and the number of lines.
    type V = (Seq<char>, u16);

    closed spec fn view(&self) -> (Seq<char>, u16) {
        (self.text@, self.lines)
    }
}

impl View for FileView {
    /// The text and the number of lines.
    type V = (Seq<char>, u16);

    closed spec fn view(&self) -> (Seq<char>, u16) {
        (self.text@, self.lines)
    }
}

impl View for StatusLog {
    /// The messages, oldest first, and the number of lines.
    type V = (Seq<Seq<char>>, u16);

    closed spec fn view(&self) -> (Seq<Seq<char>>, u16) {
        (self.log@.map_values(|m: String| m@), self.lines)
    }
}

impl Header {
    /// A one-line header; it reads "Header", whatever `text` is.
    pub fn new(text: String) -> (res: Header)
        ensures
            res@ == ("Header"@, 1u16),
    {
        Header { text: "Header".to_owned(), lines: 1 }
    }

    pub fn text(&self) -> (res: &String)
        ensures
            res@ == self@.0,
    {
        &self.text
    }

    pub fn lines(&self) -> (res: u16)
        ensures
            res == self@.1,
    {
        self.lines
    }
}

impl FileView {
    pub fn new(text: String, lines: u16) -> (res: FileView)
        ensures
            res@ == (text@, lines),
    {
        FileView { text, lines }
    }

    pub fn text(&self) -> (res: &String)
        ensures
            res@ == self@.0,
    {
        &self.text
    }

    pub fn lines(&self) -> (res: u16)
        ensures
            res == self@.1,
    {
        self.lines
    }
}

impl StatusLog {
    pub fn new(lines: u16) -> (res: StatusLog)
        ensures
            res@ == (Seq::<Seq<char>>::empty(), lines),
    {
        let res = StatusLog { log: Vec::new(), lines };
        assert(res@.0 =~= Seq::<Seq<char>>::empty());
        res
    }

    /// Adds `message` last, dropping the oldest message once the log holds
    /// `lines - 1` of them.
    pub fn print(&mut self, message: &str)
        requires
            old(self)@.1 >= 1,
            old(self)@.0.len() >= old(self)@.1 - 1 ==> old(self)@.0.len() > 0,
        ensures
            final(self)@ == (print_model(old(self)@.0, old(self)@.1, message@), old(self)@.1),
    {
        let ghost before = self@.0;
        if self.log.len() >= self.lines as usize - 1 {
            self.log.remove(0);
            assert(self@.0 =~= before.drop_first());
        }
        let ghost mid = self@.0;
        self.log.push(message.to_owned());
        assert(self@.0 =~= mid.push(message@));
    }

    /// The messages, oldest first.
    pub fn messages(&self) -> (res: &Vec<String>)
        ensures
            res@.map_values(|m: String| m@) == self@.0,
    {
        &self.log
    }

    pub fn lines(&self) -> (res: u16)
        ensures
            res == self@.1,
    {
        self.lines
    }
}

} // verus!
