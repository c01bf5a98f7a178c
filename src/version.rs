use vstd::prelude::*;
use vstd::string::*;

verus! {

/// The version of this library.
pub fn version() -> (r: &'static str)
    ensures
        r@ == "0.1.0"@,
{
    "0.1.0"
}

/// A version as shown to users: the release number and, for a build from a
/// working tree, the commit it was built from.
#[derive(Debug, Clone, Copy)]
pub struct CnvxVersion {
    /// The release number, as written.
    pub raw: &'static str,
    /// The commit hash, when known.
    pub commit: Option<&'static str>,
}

/// Length of the abbreviated commit hash.
pub const SHORT_SHA_LEN: usize = 7;

/// How a version reads: `v<raw>`, or `v<raw>+<first seven characters of the
/// commit>.dirty` when the commit is known.
pub open spec fn version_text(raw: Seq<char>, commit: Option<Seq<char>>) -> Seq<char> {
    match commit {
        None => "v"@ + raw,
        Some(c) => {
            let k = if c.len() < SHORT_SHA_LEN { c.len() } else { SHORT_SHA_LEN as nat };
            "v"@ + raw + "+"@ + c.subrange(0, k as int) + ".dirty"@
        },
    }
}

/// The version of this build.
pub fn get_version() -> (v: CnvxVersion)
    ensures
        v.raw@ == "0.1.0"@,
        v.commit is None,
{
    CnvxVersion { raw: version(), commit: None }
}

impl CnvxVersion {
    /// A version from its release number and, if known, its commit.
    pub fn new(raw: &'static str, commit: Option<&'static str>) -> (v: CnvxVersion)
        ensures
            v.raw == raw,
            v.commit == commit,
    {
        CnvxVersion { raw, commit }
    }

    /// The version as text.
    pub fn render(&self) -> (r: String)
        ensures
            r@ == version_text(
                self.raw@,
                match self.commit {
                    None => None,
                    Some(c) => Some(c@),
                },
            ),
    {
        let mut r = String::from_str("v");
        r.append(self.raw);
        match self.commit {
            None => {},
            Some(c) => {
                let len = c.unicode_len();
                let k = if len < SHORT_SHA_LEN {
                    len
                } else {
                    SHORT_SHA_LEN
                };
                r.append("+");
                r.append(c.substring_char(0, k));
                r.append(".dirty");
            },
        }
        r
    }
}

} // verus!
