//! Turning raw bytes into strings, and comparing strings, with stated meaning.
use vstd::prelude::*;
use vstd::utf8::{decode_utf8, valid_utf8, encode_utf8, encode_utf8_decode_utf8};

verus! {

/// What `String::from_utf8_lossy` makes of `bytes`: a pure function of the
/// bytes (invalid sequences become U+FFFD).
pub uninterp spec fn utf8_lossy(bytes: Seq<u8>) -> Seq<char>;

/// Trusted wrapper of `String::from_utf8_lossy(..).into_owned()`. Claims the
/// result is the named lossy decoding of `bytes` and, as the std documentation
/// says, that input which is valid UTF-8 comes back decoded unchanged; and,
/// since invalid sequences become U+FFFD and the only UTF-8 encoding of NUL
/// is the byte 0, that bytes without a 0 decode to text without a NUL.
#[verifier::external_body]
pub(crate) fn lossy_string(bytes: &[u8]) -> (s: String)
    ensures
        s@ == utf8_lossy(bytes@),
        valid_utf8(bytes@) ==> s@ == decode_utf8(bytes@),
        (forall|k: int| 0 <= k < bytes@.len() ==> bytes@[k] != 0) ==> forall|k: int|
            0 <= k < s@.len() ==> s@[k] != '\0',
{
    String::from_utf8_lossy(bytes).into_owned()
}

/// Trusted wrapper of `String::from_utf8`. Claims, as the std documentation
/// says, that it succeeds exactly on valid UTF-8 and then holds the decoded
/// characters.
#[verifier::external_body]
pub(crate) fn string_from_utf8(bytes: Vec<u8>) -> (r: Option<String>)
    ensures
        r is Some <==> valid_utf8(bytes@),
        r matches Some(s) ==> s@ == decode_utf8(bytes@),
{
    String::from_utf8(bytes).ok()
}

/// Whether two strings hold the same characters, decided on their UTF-8 bytes.
pub fn str_eq(a: &str, b: &str) -> (r: bool)
    ensures
        r == (a@ == b@),
{
    let x = a.as_bytes();
    let y = b.as_bytes();
    proof {
        encode_utf8_decode_utf8(a@);
        encode_utf8_decode_utf8(b@);
    }
    if x.len() != y.len() {
        return false;
    }
    let mut i: usize = 0;
    while i < x.len()
        invariant
            x@ == encode_utf8(a@),
            y@ == encode_utf8(b@),
            x@.len() == y@.len(),
            i <= x@.len(),
            forall|k: int| 0 <= k < i ==> x@[k] == y@[k],
        decreases x@.len() - i,
    {
        if x[i] != y[i] {
            return false;
        }
        i += 1;
    }
    assert(x@ =~= y@);
    true
}

/// The character of decimal digit `d`.
pub open spec fn digit_char(d: nat) -> char {
    (48 + d) as char
}

/// The decimal representation of `n`, without leading zeros.
pub open spec fn decimal(n: nat) -> Seq<char>
    decreases n,
{
    if n < 10 {
        seq![digit_char(n)]
    } else {
        decimal(n / 10).push(digit_char(n % 10))
    }
}

/// `s` left-padded with `0` to at least `width` characters.
pub open spec fn zero_pad(s: Seq<char>, width: nat) -> Seq<char> {
    if s.len() >= width {
        s
    } else {
        Seq::new((width - s.len()) as nat, |_i: int| '0') + s
    }
}

/// The file name of frame `index` of an animation named `stem`:
/// `{stem}_frame_{index:04}.png`.
pub open spec fn spec_frame_file_name(stem: Seq<char>, index: nat) -> Seq<char> {
    stem + "_frame_"@ + zero_pad(decimal(index), 4) + ".png"@
}

proof fn lemma_decimal_len(n: nat)
    ensures
        decimal(n).len() >= 1,
        n < 10 ==> decimal(n).len() == 1,
        10 <= n < 100 ==> decimal(n).len() == 2,
        100 <= n < 1000 ==> decimal(n).len() == 3,
        n >= 1000 ==> decimal(n).len() >= 4,
    decreases n,
{
    if n >= 10 {
        lemma_decimal_len(n / 10);
    }
}

fn digit_str(d: usize) -> (r: &'static str)
    requires
        d < 10,
    ensures
        r@ == seq![digit_char(d as nat)],
{
    proof {
        reveal_strlit("0");
        reveal_strlit("1");
        reveal_strlit("2");
        reveal_strlit("3");
        reveal_strlit("4");
        reveal_strlit("5");
        reveal_strlit("6");
        reveal_strlit("7");
        reveal_strlit("8");
        reveal_strlit("9");
    }
    let r = match d {
        0 => "0",
        1 => "1",
        2 => "2",
        3 => "3",
        4 => "4",
        5 => "5",
        6 => "6",
        7 => "7",
        8 => "8",
        _ => "9",
    };
    assert(r@ =~= seq![digit_char(d as nat)]);
    r
}

/// Appends the decimal representation of `n`.
fn push_decimal(out: &mut String, n: usize)
    ensures
        final(out)@ == old(out)@ + decimal(n as nat),
    decreases n,
{
    if n >= 10 {
        push_decimal(out, n / 10);
    }
    out.append(digit_str(n % 10));
    proof {
        if n >= 10 {
            assert(decimal(n as nat) == decimal((n / 10) as nat).push(digit_char((n % 10) as nat)));
        }
    }
    assert(out@ =~= old(out)@ + decimal(n as nat));
}

/// The file name of frame `index` of an animation named `stem`:
/// `{stem}_frame_{index:04}.png`.
pub fn frame_file_name(stem: &str, index: usize) -> (r: String)
    ensures
        r@ == spec_frame_file_name(stem@, index as nat),
{
    proof {
        lemma_decimal_len(index as nat);
        reveal_strlit("_frame_");
        reveal_strlit(".png");
        reveal_strlit("0");
    }
    let mut out = String::from_str(stem);
    out.append("_frame_");
    let ghost before_pad = out@;
    let zeros: usize = if index < 10 {
        3
    } else if index < 100 {
        2
    } else if index < 1000 {
        1
    } else {
        0
    };
    let mut z: usize = 0;
    while z < zeros
        invariant
            z <= zeros,
            out@ =~= before_pad + Seq::new(z as nat, |_i: int| '0'),
        decreases zeros - z,
    {
        proof {
            reveal_strlit("0");
        }
        out.append("0");
        z += 1;
    }
    push_decimal(&mut out, index);
    assert(out@ =~= stem@ + "_frame_"@ + zero_pad(decimal(index as nat), 4));
    out.append(".png");
    out
}

} // verus!
