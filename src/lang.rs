//! The modelling languages that models can be read from.
use vstd::prelude::*;
use vstd::string::*;

verus! {

/// The formats that models can be read from.
#[derive(Debug, Clone, Copy, PartialEq, Eq, Structural)]
pub enum ModelFormat {
    Ampl,
    Gmpl,
    Mps,
}

/// Whether two strings hold the same characters.
fn same_text(a: &str, b: &str) -> (r: bool)
    ensures
        r == (a@ == b@),
{
    let n = a.unicode_len();
    if n != b.unicode_len() {
        return false;
    }
    let mut k: usize = 0;
    while k < n
        invariant
            n == a@.len(),
            n == b@.len(),
            k <= n,
            forall|q: int| 0 <= q < k ==> a@[q] == b@[q],
        decreases n - k,
    {
        if a.get_char(k) != b.get_char(k) {
            return false;
        }
        k = k + 1;
    }
    assert(a@ =~= b@);
    true
}

/// The format named by a file type: `ampl`, `gmpl` or `mps`, as written;
/// `None` for any other name.
pub fn format_of(file_type: &str) -> (r: Option<ModelFormat>)
    ensures
        file_type@ == "ampl"@ ==> r == Some(ModelFormat::Ampl),
        file_type@ == "gmpl"@ ==> r == Some(ModelFormat::Gmpl),
        file_type@ == "mps"@ ==> r == Some(ModelFormat::Mps),
        file_type@ != "ampl"@ && file_type@ != "gmpl"@ && file_type@ != "mps"@ ==> r is None,
{
    proof {
        reveal_strlit("ampl");
        reveal_strlit("gmpl");
        reveal_strlit("mps");
        assert("ampl"@[0] != "gmpl"@[0]);
        assert("ampl"@.len() != "mps"@.len());
        assert("gmpl"@.len() != "mps"@.len());
    }
    if same_text(file_type, "ampl") {
        Some(ModelFormat::Ampl)
    } else if same_text(file_type, "gmpl") {
        Some(ModelFormat::Gmpl)
    } else if same_text(file_type, "mps") {
        Some(ModelFormat::Mps)
    } else {
        None
    }
}

/// A reader of AMPL models.
#[derive(Debug, Clone, Copy, Default)]
pub struct AMPLLanguage;

/// A reader of GMPL models.
#[derive(Debug, Clone, Copy, Default)]
pub struct GMPLLanguage;

/// A reader of MPS models.
#[derive(Debug, Clone, Copy, Default)]
pub struct MPSLanguage;

impl AMPLLanguage {
    pub fn new() -> (r: Self) {
        AMPLLanguage
    }
}

impl GMPLLanguage {
    pub fn new() -> (r: Self) {
        GMPLLanguage
    }
}

impl MPSLanguage {
    pub fn new() -> (r: Self) {
        MPSLanguage
    }
}

} // verus!
