//! Fixed-size feature and input reports.

use vstd::prelude::*;

verus! {

/// Size of the feature report and of the input report.
pub const REPORT_LEN: usize = 32;

/// Report identifier of the brightness feature report.
pub const BRIGHTNESS_REPORT_ID: u8 = 0x03;

/// Subcommand identifier that selects "set brightness".
pub const BRIGHTNESS_SUBCOMMAND: u8 = 0x08;

/// Number of physical keys.
pub const KEY_COUNT: usize = 15;

/// Value written into the first byte of the input buffer before a read.
pub const INPUT_LENGTH_HINT: u8 = 19;

/// Offset of the first key state byte in an input report.
pub const KEY_STATE_OFFSET: usize = 4;

/// The brightness feature report for `percentage` (taken modulo 256).
pub open spec fn brightness_bytes(percentage: nat) -> Seq<u8> {
    Seq::new(REPORT_LEN as nat, |i: int|
        if i == 0 {
            BRIGHTNESS_REPORT_ID
        } else if i == 1 {
            BRIGHTNESS_SUBCOMMAND
        } else if i == 2 {
            (percentage % 256) as u8
        } else {
            0u8
        })
}

/// `i` is the lowest index in `lo..hi` whose byte is exactly 1.
pub open spec fn first_one_at(s: Seq<u8>, lo: int, hi: int, i: int) -> bool {
    &&& lo <= i < hi
    &&& s[i] == 1
    &&& forall|j: int| lo <= j < i ==> s[j] != 1
}

/// No byte in `lo..hi` is exactly 1.
pub open spec fn no_one_in(s: Seq<u8>, lo: int, hi: int) -> bool {
    forall|j: int| lo <= j < hi ==> s[j] != 1
}

/// Decoding key states: a buffer with exactly one byte equal to 1 decodes to
/// that index, an all-zero buffer to no key, and one with several bytes
/// equal to 1 to the lowest of them; the decoded index is unique.
pub proof fn lemma_key_state_decoding(s: Seq<u8>, i: int, j: int)
    requires
        0 <= i < s.len(),
        0 <= j < s.len(),
    ensures
        s[i] == 1 && (forall|m: int| 0 <= m < s.len() && m != i ==> s[m] == 0)
            ==> first_one_at(s, 0, s.len() as int, i),
        (forall|m: int| 0 <= m < s.len() ==> s[m] == 0) ==> no_one_in(s, 0, s.len() as int),
        i < j && s[i] == 1 && s[j] == 1 ==> !first_one_at(s, 0, s.len() as int, j),
        first_one_at(s, 0, s.len() as int, i) && first_one_at(s, 0, s.len() as int, j) ==> i == j,
{
}

/// Builds the feature report that sets the display brightness. Values over
/// 255 are not rejected: only their low byte is sent.
pub fn brightness_report(percentage: usize) -> (r: Vec<u8>)
    ensures
        r@ == brightness_bytes(percentage as nat),
{
    let mut r: Vec<u8> = vec![0u8; REPORT_LEN];
    r.set(0, BRIGHTNESS_REPORT_ID);
    r.set(1, BRIGHTNESS_SUBCOMMAND);
    r.set(2, (percentage % 256) as u8);
    assert(r@ =~= brightness_bytes(percentage as nat));
    r
}

/// The buffer handed to an input read: zeroed, with the length hint in
/// its first byte.
pub fn input_request() -> (r: Vec<u8>)
    ensures
        r@.len() == REPORT_LEN,
        r@[0] == INPUT_LENGTH_HINT,
        forall|i: int| 1 <= i < REPORT_LEN ==> r@[i] == 0,
{
    let mut r: Vec<u8> = vec![0u8; REPORT_LEN];
    r.set(0, INPUT_LENGTH_HINT);
    r
}

/// The lowest index in `lo..hi` whose byte is 1, if any.
fn first_one_in(buf: &[u8], lo: usize, hi: usize) -> (r: Option<usize>)
    requires
        lo <= hi <= buf@.len(),
    ensures
        r matches Some(i) ==> first_one_at(buf@, lo as int, hi as int, i as int),
        r is None ==> no_one_in(buf@, lo as int, hi as int),
{
    let mut i: usize = lo;
    while i < hi
        invariant
            lo <= i <= hi <= buf@.len(),
            no_one_in(buf@, lo as int, i as int),
        decreases hi - i,
    {
        if buf[i] == 1 {
            return Some(i);
        }
        i = i + 1;
    }
    None
}

/// Decodes a run of key state bytes: the index of the first byte equal to 1,
/// or `None` when no key is pressed.
pub fn get_pressed_button(buf: &[u8]) -> (r: Option<usize>)
    ensures
        r matches Some(i) ==> first_one_at(buf@, 0, buf@.len() as int, i as int),
        r is None ==> no_one_in(buf@, 0, buf@.len() as int),
{
    first_one_in(buf, 0, buf.len())
}

/// Decodes a full input report: the lowest key whose state byte is 1, or
/// `None` when no key is pressed.
pub fn pressed_key(report: &[u8]) -> (r: Option<usize>)
    requires
        report@.len() >= KEY_STATE_OFFSET + KEY_COUNT,
    ensures
        r matches Some(k) ==> k < KEY_COUNT && first_one_at(
            report@,
            KEY_STATE_OFFSET as int,
            KEY_STATE_OFFSET + KEY_COUNT,
            KEY_STATE_OFFSET + k,
        ),
        r is None ==> no_one_in(report@, KEY_STATE_OFFSET as int, KEY_STATE_OFFSET + KEY_COUNT),
{
    match first_one_in(report, KEY_STATE_OFFSET, KEY_STATE_OFFSET + KEY_COUNT) {
        Some(i) => Some(i - KEY_STATE_OFFSET),
        None => None,
    }
}

} // verus!
