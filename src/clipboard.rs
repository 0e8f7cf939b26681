//! The file clipboard: one file path held for a later paste, by copy or
//! by cut.

use vstd::prelude::*;
use vstd::string::StringExecFns;

verus! {

/// A file on the clipboard.
pub struct ClipboardItem {
    pub file_path: String,
    /// `copy` or `cut`.
    pub operation: String,
    /// When it was put there, in seconds.
    pub timestamp: i64,
}

impl ClipboardItem {
    /// A copy of this item.
    pub fn duplicate(&self) -> (r: ClipboardItem)
        ensures
            r.file_path@ == self.file_path@,
            r.operation@ == self.operation@,
            r.timestamp == self.timestamp,
    {
        ClipboardItem {
            file_path: self.file_path.clone(),
            operation: self.operation.clone(),
            timestamp: self.timestamp,
        }
    }
}

/// What a paste must do with the file system.
pub enum PasteAction {
    /// Copy the file at `source` to the destination.
    Copy(String),
    /// Move the file at `source` to the destination.
    Move(String),
}

/// The clipboard's content.
pub struct Clipboard {
    pub item: Option<ClipboardItem>,
}

/// `message` with `path` in the middle.
pub open spec fn wrap(before: Seq<char>, path: Seq<char>, after: Seq<char>) -> Seq<char> {
    before + path + after
}

fn concat3(a: &str, b: &str, c: &str) -> (r: String)
    ensures
        r@ == a@ + b@ + c@,
{
    let mut s = String::from_str(a);
    s.append(b);
    s.append(c);
    s
}

impl Clipboard {
    /// An empty clipboard.
    pub fn new() -> (r: Clipboard)
        ensures
            r.item is None,
    {
        Clipboard { item: None }
    }

    /// Puts `file_path` on the clipboard for a copy, stamped with
    /// `timestamp`.
    pub fn clipboard_copy(&mut self, file_path: String, timestamp: i64) -> (r: String)
        ensures
            final(self).item matches Some(i) && i.file_path@ == file_path@ && i.operation@
                == "copy"@ && i.timestamp == timestamp,
            r@ == wrap("Copied "@, file_path@, " to clipboard"@),
    {
        let r = concat3("Copied ", file_path.as_str(), " to clipboard");
        self.item = Some(
            ClipboardItem { file_path, operation: String::from_str("copy"), timestamp },
        );
        r
    }

    /// Puts `file_path` on the clipboard for a cut, stamped with
    /// `timestamp`.
    pub fn clipboard_cut(&mut self, file_path: String, timestamp: i64) -> (r: String)
        ensures
            final(self).item matches Some(i) && i.file_path@ == file_path@ && i.operation@
                == "cut"@ && i.timestamp == timestamp,
            r@ == wrap("Cut "@, file_path@, " to clipboard"@),
    {
        let r = concat3("Cut ", file_path.as_str(), " to clipboard");
        self.item = Some(
            ClipboardItem { file_path, operation: String::from_str("cut"), timestamp },
        );
        r
    }

    /// Decides a paste: an empty clipboard and an unknown operation are
    /// errors; a copy leaves the clipboard as it is; a cut empties it.
    pub fn clipboard_paste(&mut self) -> (r: Result<PasteAction, String>)
        ensures
            match old(self).item {
                None => final(self).item is None && (r matches Err(e) && e@
                    == "Clipboard is empty"@),
                Some(i) => if i.operation@ == "copy"@ {
                    final(self).item == old(self).item && (r matches Ok(PasteAction::Copy(s))
                        && s@ == i.file_path@)
                } else if i.operation@ == "cut"@ {
                    final(self).item is None && (r matches Ok(PasteAction::Move(s)) && s@
                        == i.file_path@)
                } else {
                    final(self).item == old(self).item && (r matches Err(e) && e@
                        == "Invalid clipboard operation"@)
                },
            },
    {
        let (is_copy, is_cut, source) = match &self.item {
            None => return Err(String::from_str("Clipboard is empty")),
            Some(i) => (
                i.operation == String::from_str("copy"),
                i.operation == String::from_str("cut"),
                i.file_path.clone(),
            ),
        };
        if is_copy {
            Ok(PasteAction::Copy(source))
        } else if is_cut {
            self.item = None;
            Ok(PasteAction::Move(source))
        } else {
            Err(String::from_str("Invalid clipboard operation"))
        }
    }

    /// What is on the clipboard.
    pub fn clipboard_get_status(&self) -> (r: Option<ClipboardItem>)
        ensures
            match (r, self.item) {
                (Some(a), Some(b)) => a.file_path@ == b.file_path@ && a.operation@ == b.operation@
                    && a.timestamp == b.timestamp,
                (None, None) => true,
                _ => false,
            },
    {
        match &self.item {
            Some(i) => Some(i.duplicate()),
            None => None,
        }
    }

    /// Empties the clipboard.
    pub fn clipboard_clear(&mut self) -> (r: String)
        ensures
            final(self).item is None,
            r@ == "Clipboard cleared"@,
    {
        self.item = None;
        String::from_str("Clipboard cleared")
    }
}

} // verus!
