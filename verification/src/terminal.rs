use vstd::prelude::*;

verus! {

/// The dimensions of the text area of the terminal, in character cells.
#[derive(PartialEq, Eq, Structural, Clone, Copy, Debug)]
pub struct Size {
    pub width: u16,
    pub height: u16,
}

/// The terminal as the editor core sees it: only its dimensions.  Querying
/// the device, raw mode and painting are the collaborators' business; they
/// hand the measured dimensions in and read them back from here.
pub struct Terminal {
    size: Size,
}

impl Terminal {
    /// Builds a terminal description from the result of a size query.  Two
    /// rows are reserved for the status and message bars; when the query
    /// failed, a small fixed size is assumed.
    pub fn from_query(query: Option<(u16, u16)>) -> (t: Terminal)
        ensures
            match query {
                Some(wh) => t.spec_size() == (Size {
                    width: wh.0,
                    height: if wh.1 >= 2 { (wh.1 - 2) as u16 } else { 0u16 },
                }),
                None => t.spec_size() == (Size { width: 16u16, height: 20u16 }),
            },
    {
        match query {
            Some((w, h)) => Terminal {
                size: Size { width: w, height: if h >= 2 { h - 2 } else { 0 } },
            },
            None => Terminal { size: Size { width: 16, height: 20 } },
        }
    }

    pub closed spec fn spec_size(&self) -> Size {
        self.size
    }

    pub fn size(&self) -> (s: &Size)
        ensures
            *s == self.spec_size(),
    {
        &self.size
    }
}

} // verus!
