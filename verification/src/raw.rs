//! Plain-value records in which the external parsing services report
//! what they read: functions with their line tables, symbol-table
//! entries, and segments. The verified logic works on these values.

use vstd::prelude::*;

verus! {

/// One source-line record of a debug session: source line `line` of
/// `path` begins at `address`.
pub struct RawLine {
    pub address: u64,
    pub line: u64,
    pub path: String,
}

/// Ghost image of a [`RawLine`].
pub ghost struct RawLineV {
    pub address: u64,
    pub line: u64,
    pub path: Seq<char>,
}

impl View for RawLine {
    type V = RawLineV;

    open spec fn view(&self) -> RawLineV {
        RawLineV { address: self.address, line: self.line, path: self.path@ }
    }
}

impl DeepView for RawLine {
    type V = RawLineV;

    open spec fn deep_view(&self) -> RawLineV {
        self.view()
    }
}

/// One function record of a debug session, with its line table.
pub struct RawFunc {
    pub address: u64,
    pub size: u64,
    pub name: String,
    pub lines: Vec<RawLine>,
}

/// Ghost image of a [`RawFunc`].
pub ghost struct RawFuncV {
    pub address: u64,
    pub size: u64,
    pub name: Seq<char>,
    pub lines: Seq<RawLineV>,
}

impl View for RawFunc {
    type V = RawFuncV;

    open spec fn view(&self) -> RawFuncV {
        RawFuncV {
            address: self.address,
            size: self.size,
            name: self.name@,
            lines: self.lines.deep_view(),
        }
    }
}

impl DeepView for RawFunc {
    type V = RawFuncV;

    open spec fn deep_view(&self) -> RawFuncV {
        self.view()
    }
}

/// One symbol-table entry of a linked binary, as the object reader
/// reports it.
pub struct SymEntry {
    pub name: String,
    pub n_type: u8,
    pub n_sect: u64,
    pub n_value: u64,
}

/// Ghost image of a [`SymEntry`].
pub ghost struct SymEntryV {
    pub name: Seq<char>,
    pub n_type: u8,
    pub n_sect: u64,
    pub n_value: u64,
}

impl View for SymEntry {
    type V = SymEntryV;

    open spec fn view(&self) -> SymEntryV {
        SymEntryV {
            name: self.name@,
            n_type: self.n_type,
            n_sect: self.n_sect,
            n_value: self.n_value,
        }
    }
}

impl DeepView for SymEntry {
    type V = SymEntryV;

    open spec fn deep_view(&self) -> SymEntryV {
        self.view()
    }
}

/// One load segment of a linked binary: its name, when it has a valid
/// one, and its mapped virtual address.
pub struct SegEntry {
    pub name: Option<String>,
    pub vmaddr: u64,
}

/// Ghost image of a [`SegEntry`].
pub ghost struct SegEntryV {
    pub name: Option<Seq<char>>,
    pub vmaddr: u64,
}

impl View for SegEntry {
    type V = SegEntryV;

    open spec fn view(&self) -> SegEntryV {
        SegEntryV {
            name: match self.name {
                Some(n) => Some(n@),
                None => None,
            },
            vmaddr: self.vmaddr,
        }
    }
}

impl DeepView for SegEntry {
    type V = SegEntryV;

    open spec fn deep_view(&self) -> SegEntryV {
        self.view()
    }
}

} // verus!
