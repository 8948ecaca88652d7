use vstd::prelude::*;

verus! {

/// The codecs an archive entry can be written with.
#[derive(Clone, Copy, Debug, PartialEq, Eq, Structural)]
pub enum Method {
    Aes,
    Bzip2,
    Deflated,
    Zstd,
    Stored,
}

/// A codec together with the level it is run at.
#[derive(Clone, Copy, Debug, PartialEq, Eq, Structural)]
pub struct CompressionConfig {
    pub method: Method,
    pub level: i32,
}

/// What `str::to_lowercase` makes of a string: its Unicode lower-case mapping
/// (context-dependent for a final sigma).
pub uninterp spec fn lower_of(s: Seq<char>) -> Seq<char>;

/// The method that a lower-case name selects; every unknown name selects `Stored`.
pub open spec fn method_of(name: Seq<char>) -> Method {
    if name == "aes"@ {
        Method::Aes
    } else if name == "bz2"@ {
        Method::Bzip2
    } else if name == "deflate"@ {
        Method::Deflated
    } else if name == "zstd"@ {
        Method::Zstd
    } else {
        Method::Stored
    }
}

/// Whether a lower-case name is one of the five method names.
pub open spec fn is_known_method(name: Seq<char>) -> bool {
    name == "aes"@ || name == "bz2"@ || name == "deflate"@ || name == "zstd"@ || name
        == "store"@
}

/// The levels a caller may ask for.
pub open spec fn is_valid_level(level: int) -> bool {
    0 <= level <= 9
}

/// Relies on `str::to_lowercase`: its result depends on the characters alone.
#[verifier::external_body]
fn lowercase(s: &str) -> (r: String)
    ensures
        r@ == lower_of(s@),
{
    s.to_lowercase()
}

/// Tells whether `s` holds exactly the characters of `lit`.
fn same_text(s: &String, lit: &str) -> (r: bool)
    ensures
        r == (s@ == lit@),
{
    let other = String::from_str(lit);
    *s == other
}

/// Maps an already lower-cased method name to its codec; unknown names give `Stored`.
pub fn method_from_lowered(name: &String) -> (r: Method)
    ensures
        r == method_of(name@),
{
    if same_text(name, "aes") {
        Method::Aes
    } else if same_text(name, "bz2") {
        Method::Bzip2
    } else if same_text(name, "deflate") {
        Method::Deflated
    } else if same_text(name, "zstd") {
        Method::Zstd
    } else {
        Method::Stored
    }
}

/// Tells whether an already lower-cased name is one of the five method names.
pub fn is_known_lowered(name: &String) -> (r: bool)
    ensures
        r == is_known_method(name@),
{
    same_text(name, "aes") || same_text(name, "bz2") || same_text(name, "deflate") || same_text(
        name,
        "zstd",
    ) || same_text(name, "store")
}

/// Maps a method name, in any case, to its codec; unknown names give `Stored`.
pub fn str_to_compression_method(meth: String) -> (r: Method)
    ensures
        r == method_of(lower_of(meth@)),
        !is_known_method(lower_of(meth@)) ==> r == Method::Stored,
{
    let lowered = lowercase(meth.as_str());
    method_from_lowered(&lowered)
}

/// Tells whether a compression level lies in `0..=9`.
pub fn verify_compression_val(val: &i32) -> (r: bool)
    ensures
        r == is_valid_level(*val as int),
{
    *val >= 0 && *val <= 9
}

/// Tells whether a method name, in any case, is one of "aes", "bz2", "deflate", "zstd", "store".
pub fn verify_compression_meth(meth: &String) -> (r: bool)
    ensures
        r == is_known_method(lower_of(meth@)),
{
    let lowered = lowercase(meth.as_str());
    is_known_lowered(&lowered)
}

/// The configuration that a method name and a level resolve to.
pub open spec fn resolved(name: Seq<char>, level: i32) -> CompressionConfig {
    CompressionConfig { method: method_of(lower_of(name)), level }
}

/// Resolving is a function of its inputs: equal names and levels give equal
/// configurations, and a name that matches no method in any case gives `Stored`.
pub proof fn lemma_resolve_deterministic(a: Seq<char>, b: Seq<char>, la: i32, lb: i32)
    requires
        a == b,
        la == lb,
    ensures
        resolved(a, la) == resolved(b, lb),
        !is_known_method(lower_of(a)) ==> resolved(a, la).method == Method::Stored,
{
}

} // verus!
