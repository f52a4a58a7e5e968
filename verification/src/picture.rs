//! One catalog entry: a source file's path, its display name parts, the
//! user-facing flags and the metadata read at scan time.

use vstd::prelude::*;
use crate::text::{
    dec_str, digit_char, digit_str, file_name_of, file_name_str, stem_of, stem_str, strip_drive,
    strip_drive_str, u64_to_string,
};

verus! {

/// Metadata captured once when the catalog is built: byte size, pixel
/// dimensions, the embedded orientation code and filesystem timestamps
/// (seconds, absent when the filesystem does not report them).
#[derive(Debug, Clone, Copy, PartialEq)]
pub struct Metadata {
    pub weight: u64,
    pub width: usize,
    pub height: usize,
    pub rotation: Option<u32>,
    pub created: Option<u64>,
    pub modified: Option<u64>,
    pub accessed: Option<u64>,
}

impl Metadata {
    /// Bundle the values a scan observed for one file.
    pub fn new(
        weight: u64,
        width: usize,
        height: usize,
        rotation: Option<u32>,
        created: Option<u64>,
        modified: Option<u64>,
        accessed: Option<u64>,
    ) -> (r: Self)
        ensures
            r == (Metadata { weight, width, height, rotation, created, modified, accessed }),
    {
        Metadata { weight, width, height, rotation, created, modified, accessed }
    }

    /// The zeroed record used when metadata extraction fails: the defect
    /// is isolated, never propagated to the whole scan.
    pub open spec fn spec_default() -> Metadata {
        Metadata {
            weight: 0,
            width: 0,
            height: 0,
            rotation: None,
            created: None,
            modified: None,
            accessed: None,
        }
    }
}

impl Default for Metadata {
    fn default() -> (r: Self)
        ensures
            r == Metadata::spec_default(),
    {
        Metadata {
            weight: 0,
            width: 0,
            height: 0,
            rotation: None,
            created: None,
            modified: None,
            accessed: None,
        }
    }
}

/// The parts of an output file name: the source stem with an optional
/// prefix and suffix around it.
#[derive(Debug, Clone, PartialEq)]
pub struct FileName {
    pub source_name: String,
    pub prefix: String,
    pub suffix: String,
}

/// The output path a name builds under a destination directory:
/// `destination/<prefix><stem><suffix>`, still without an extension.
pub open spec fn built_path(dest: Seq<char>, n: FileName) -> Seq<char> {
    dest + seq!['/'] + n.prefix@ + n.source_name@ + n.suffix@
}

impl FileName {
    /// A name made of the given stem alone.
    pub fn new(name: &str) -> (r: Self)
        ensures
            r.source_name@ == name@,
            r.prefix@ == Seq::<char>::empty(),
            r.suffix@ == Seq::<char>::empty(),
    {
        FileName { source_name: name.to_owned(), prefix: String::new(), suffix: String::new() }
    }

    /// Join the destination directory, the prefix, the stem and the
    /// suffix into the output path (no extension yet).
    pub fn build(&self, path: &str) -> (r: String)
        ensures
            r@ == built_path(path@, *self),
    {
        proof {
            reveal_strlit("/");
        }
        let r = path
            .to_owned()
            .concat("/")
            .concat(self.prefix.as_str())
            .concat(self.source_name.as_str())
            .concat(self.suffix.as_str());
        proof {
            assert(r@ =~= built_path(path@, *self));
        }
        r
    }
}

/// One picture of the catalog. The path is its identity; the flags are
/// mutable: selection by the user, the other two by a transform run.
#[derive(Debug, Clone, PartialEq)]
pub struct Picture {
    pub path: String,
    pub name: FileName,
    pub is_selected: bool,
    pub is_in_process: bool,
    pub is_processed: bool,
    pub metadata: Metadata,
}

/// The label shown for a byte size: whole megabytes or kilobytes with
/// two rounded decimals above each threshold, else plain bytes.
pub open spec fn weight_label(w: u64) -> Seq<char> {
    if w > 1048576 {
        scaled_label(w as nat, 1048576) + seq![' ', 'M', 'B']
    } else if w > 1024 {
        scaled_label(w as nat, 1024) + seq![' ', 'K', 'B']
    } else {
        dec_str(w as nat) + seq![' ', 'B']
    }
}

/// `w / unit` with two decimals, rounded half up: the hundredths of a
/// unit are counted first, then split into `<whole>.<hundredths>`.
pub open spec fn scaled_label(w: nat, unit: nat) -> Seq<char> {
    let h = (w / unit) * 100 + ((w % unit) * 100 + unit / 2) / unit;
    dec_str(h / 100) + seq!['.', digit_char(h % 100 / 10), digit_char(h % 100 % 10)]
}

/// The label shown for pixel dimensions: `<w>px - <h>px`.
pub open spec fn size_label(w: nat, h: nat) -> Seq<char> {
    dec_str(w) + seq!['p', 'x', ' ', '-', ' '] + dec_str(h) + seq!['p', 'x']
}

impl Picture {
    /// A fresh catalog entry: selected, untouched, named after the stem
    /// of the path's file name.
    pub fn new(path: String, metadata: Metadata) -> (r: Self)
        ensures
            r.path == path,
            r.name.source_name@ == stem_of(file_name_of(path@)),
            r.name.prefix@ == Seq::<char>::empty(),
            r.name.suffix@ == Seq::<char>::empty(),
            r.is_selected,
            !r.is_in_process,
            !r.is_processed,
            r.metadata == metadata,
    {
        let name = FileName::new(stem_str(file_name_str(path.as_str())));
        Picture {
            path,
            name,
            is_selected: true,
            is_in_process: false,
            is_processed: false,
            metadata,
        }
    }

    /// The file name of the source path, extension included.
    pub fn get_name(&self) -> (r: String)
        ensures
            r@ == file_name_of(self.path@),
    {
        file_name_str(self.path.as_str()).to_owned()
    }

    /// The pixel dimensions as a display label.
    pub fn get_size(&self) -> (r: String)
        ensures
            r@ == size_label(self.metadata.width as nat, self.metadata.height as nat),
    {
        proof {
            reveal_strlit("px - ");
            reveal_strlit("px");
        }
        let r = u64_to_string(self.metadata.width as u64)
            .concat("px - ")
            .concat(u64_to_string(self.metadata.height as u64).as_str())
            .concat("px");
        proof {
            assert(r@ =~= size_label(self.metadata.width as nat, self.metadata.height as nat));
        }
        r
    }

    /// The byte size as a display label.
    pub fn get_weight(&self) -> (r: String)
        ensures
            r@ == weight_label(self.metadata.weight),
    {
        let w = self.metadata.weight;
        proof {
            reveal_strlit(" MB");
            reveal_strlit(" KB");
            reveal_strlit(" B");
            reveal_strlit(".");
        }
        if w > 1048576 {
            let r = scaled(w, 1048576).concat(" MB");
            proof {
                assert(r@ =~= weight_label(w));
            }
            r
        } else if w > 1024 {
            let r = scaled(w, 1024).concat(" KB");
            proof {
                assert(r@ =~= weight_label(w));
            }
            r
        } else {
            let r = u64_to_string(w).concat(" B");
            proof {
                assert(r@ =~= weight_label(w));
            }
            r
        }
    }

    /// The source path as displayed, without a Windows drive prefix.
    pub fn get_path(&self) -> (r: &str)
        ensures
            r@ == strip_drive(self.path@),
    {
        strip_drive_str(self.path.as_str())
    }
}

/// Render `w / unit` with two rounded decimals.
fn scaled(w: u64, unit: u64) -> (r: String)
    requires
        unit == 1048576 || unit == 1024,
    ensures
        r@ == scaled_label(w as nat, unit as nat),
{
    proof {
        reveal_strlit(".");
    }
    let h: u64 = (w / unit) * 100 + ((w % unit) * 100 + unit / 2) / unit;
    let whole: u64 = h / 100;
    let frac: u64 = h % 100;
    let r = u64_to_string(whole)
        .concat(".")
        .concat(digit_str(frac / 10))
        .concat(digit_str(frac % 10));
    proof {
        assert(r@ =~= scaled_label(w as nat, unit as nat));
    }
    r
}

} // verus!
