//! What a transport hands back after running a command.
use vstd::prelude::*;

verus! {

/// The exit status and captured output of a command that ran.
#[derive(Debug, Clone, PartialEq, Eq)]
pub struct ExecutionResult {
    pub status: i32,
    pub stdout: Vec<u8>,
    pub stderr: Vec<u8>,
}

/// The name for what `String::from_utf8_lossy` makes of a byte string.
pub uninterp spec fn utf8_lossy(b: Seq<u8>) -> Seq<char>;

/// Relies on `String::from_utf8_lossy`: the text it decodes depends on the
/// bytes alone, and valid UTF-8 is kept as it is, so ASCII bytes decode to
/// the same characters (and no bytes to no text).
#[verifier::external_body]
pub(crate) fn decode_lossy(b: &Vec<u8>) -> (r: String)
    ensures
        r@ == utf8_lossy(b@),
        b@.len() == 0 ==> r@.len() == 0,
        is_ascii(b@) ==> r@ == ascii_chars(b@),
{
    String::from_utf8_lossy(b).into_owned()
}

/// Every byte is ASCII.
pub open spec fn is_ascii(b: Seq<u8>) -> bool {
    forall|i: int| 0 <= i < b.len() ==> #[trigger] b[i] < 128u8
}

/// ASCII bytes read as characters.
pub open spec fn ascii_chars(b: Seq<u8>) -> Seq<char> {
    b.map_values(|x: u8| x as char)
}

/// A command's output without the one line break that ends it, if any.
pub open spec fn trim_newline(b: Seq<u8>) -> Seq<u8> {
    if b.len() > 0 && b.last() == 10u8 {
        b.drop_last()
    } else {
        b
    }
}

/// The value a read command gives its output: what it printed, without the
/// final line break, decoded as UTF-8 with invalid bytes replaced.
pub open spec fn read_value(stdout: Seq<u8>) -> Seq<char> {
    utf8_lossy(trim_newline(stdout))
}

/// Turns the output of a read command into the value of that output.
pub fn output_text(stdout: &Vec<u8>) -> (r: String)
    ensures
        r@ == read_value(stdout@),
        is_ascii(trim_newline(stdout@)) ==> r@ == ascii_chars(trim_newline(stdout@)),
{
    let mut n: usize = stdout.len();
    if n > 0 && stdout[n - 1] == 10u8 {
        n = n - 1;
    }
    let mut b: Vec<u8> = Vec::new();
    let mut i: usize = 0;
    while i < n
        invariant
            n <= stdout.len(),
            i <= n,
            b@ == stdout@.subrange(0, i as int),
        decreases n - i,
    {
        b.push(stdout[i]);
        i = i + 1;
    }
    assert(b@ =~= trim_newline(stdout@));
    decode_lossy(&b)
}

} // verus!
