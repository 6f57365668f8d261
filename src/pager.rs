//! The multi-page image transfer: an encoded image is cut into chunks, each
//! framed by an 8-byte header and padded to a fixed-size output report.

use vstd::prelude::*;
use vstd::arithmetic::div_mod::{lemma_fundamental_div_mod, lemma_mod_bound};

verus! {

/// Total size of one output report.
pub const PAGE_SIZE: usize = 1024;

/// Size of the header at the start of each page.
pub const HEADER_SIZE: usize = 8;

/// Image bytes carried by one page.
pub const PAYLOAD_SIZE: usize = 1016;

/// Report identifier of an image page.
pub const IMAGE_REPORT_ID: u8 = 0x02;

/// Command identifier of an image page.
pub const IMAGE_COMMAND: u8 = 0x07;

/// Number of pages needed for an image of `len` bytes: `ceil(len / PAYLOAD_SIZE)`.
pub open spec fn page_count(len: nat) -> nat {
    ((len + PAYLOAD_SIZE - 1) / PAYLOAD_SIZE as int) as nat
}

/// Offset in the image of the first byte that page `n` carries.
pub open spec fn chunk_start(n: nat) -> nat {
    n * PAYLOAD_SIZE as nat
}

/// Number of image bytes that page `n` carries.
pub open spec fn chunk_len(len: nat, n: nat) -> nat {
    if len - chunk_start(n) < PAYLOAD_SIZE as int {
        (len - chunk_start(n)) as nat
    } else {
        PAYLOAD_SIZE as nat
    }
}

/// The image bytes that page `n` carries.
pub open spec fn chunk_of(img: Seq<u8>, n: nat) -> Seq<u8> {
    img.subrange(chunk_start(n) as int, (chunk_start(n) + chunk_len(img.len(), n)) as int)
}

/// Page `n` carries the last byte of the image.
pub open spec fn is_last_chunk(len: nat, n: nat) -> bool {
    chunk_start(n) + chunk_len(len, n) == len
}

/// The header of page `n` of an image of `len` bytes for key `key`; the
/// chunk length and the page number are little-endian.
pub open spec fn page_header(key: u8, len: nat, n: nat) -> Seq<u8> {
    seq![
        IMAGE_REPORT_ID,
        IMAGE_COMMAND,
        key,
        if is_last_chunk(len, n) { 1u8 } else { 0u8 },
        (chunk_len(len, n) % 256) as u8,
        (chunk_len(len, n) / 256) as u8,
        (n % 256) as u8,
        ((n / 256) % 256) as u8,
    ]
}

/// Page `n` of `img` for key `key`: header, chunk, then zeros up to `PAGE_SIZE`.
pub open spec fn page_bytes(key: u8, img: Seq<u8>, n: nat) -> Seq<u8> {
    Seq::new(PAGE_SIZE as nat, |i: int|
        if i < HEADER_SIZE {
            page_header(key, img.len(), n)[i]
        } else if i < HEADER_SIZE + chunk_len(img.len(), n) {
            img[chunk_start(n) + i - HEADER_SIZE]
        } else {
            0u8
        })
}

/// The page number written in a page's header.
pub open spec fn header_page_number(page: Seq<u8>) -> nat {
    (page[6] as nat) + 256 * (page[7] as nat)
}

/// The chunk length written in a page's header.
pub open spec fn header_chunk_len(page: Seq<u8>) -> nat {
    (page[4] as nat) + 256 * (page[5] as nat)
}

/// The chunk that a page carries, as its header declares it.
pub open spec fn page_payload(page: Seq<u8>) -> Seq<u8> {
    page.subrange(HEADER_SIZE as int, HEADER_SIZE + header_chunk_len(page))
}

/// Every page but the last carries a full chunk, and the last one ends the image.
pub proof fn lemma_page_bounds(len: nat, n: nat)
    requires
        n < page_count(len),
    ensures
        chunk_start(n) < len,
        0 < chunk_len(len, n) <= PAYLOAD_SIZE,
        is_last_chunk(len, n) <==> n + 1 == page_count(len),
        n + 1 < page_count(len) ==> chunk_len(len, n) == PAYLOAD_SIZE,
{
    let x = len + PAYLOAD_SIZE - 1;
    lemma_fundamental_div_mod(x, PAYLOAD_SIZE as int);
    lemma_mod_bound(x, PAYLOAD_SIZE as int);
}

/// A 16-bit value split into its low and high byte is read back unchanged.
proof fn lemma_le16(v: nat)
    requires
        v < 65536,
    ensures
        ((v % 256) as u8) as nat + 256 * (((v / 256) % 256) as u8) as nat == v,
        ((v % 256) as u8) as nat + 256 * ((v / 256) as u8) as nat == v,
{
    lemma_fundamental_div_mod(v as int, 256);
    lemma_mod_bound(v as int, 256);
    assert((v / 256) % 256 == v / 256) by {
        vstd::arithmetic::div_mod::lemma_small_mod((v / 256) as nat, 256);
    }
}

/// Framing of a whole transfer: for an image whose pages can be numbered in
/// 16 bits, the pages are numbered `0..count` in order with no gap, each is
/// `PAGE_SIZE` bytes long, exactly the final one carries the last-page flag,
/// and each header declares the length of the chunk that the page carries.
pub proof fn lemma_transfer_framing(key: u8, img: Seq<u8>)
    requires
        page_count(img.len()) <= 65536,
    ensures
        forall|n: nat| n < page_count(img.len()) ==> {
            let page = #[trigger] page_bytes(key, img, n);
            &&& page.len() == PAGE_SIZE
            &&& header_page_number(page) == n
            &&& (page[3] == 1 <==> n + 1 == page_count(img.len()))
            &&& (page[3] == 0 || page[3] == 1)
            &&& header_chunk_len(page) == chunk_len(img.len(), n)
            &&& page_payload(page) == chunk_of(img, n)
        },
{
    assert forall|n: nat| n < page_count(img.len()) implies {
        let page = #[trigger] page_bytes(key, img, n);
        &&& page.len() == PAGE_SIZE
        &&& header_page_number(page) == n
        &&& (page[3] == 1 <==> n + 1 == page_count(img.len()))
        &&& (page[3] == 0 || page[3] == 1)
        &&& header_chunk_len(page) == chunk_len(img.len(), n)
        &&& page_payload(page) == chunk_of(img, n)
    } by {
        lemma_page_bounds(img.len(), n);
        lemma_le16(n);
        lemma_le16(chunk_len(img.len(), n));
        let page = page_bytes(key, img, n);
        assert(page_payload(page) =~= chunk_of(img, n));
    }
}

/// The bytes a receiver gets by appending, in order, the chunk that each
/// page's header declares.
pub open spec fn reassembled(pages: Seq<Seq<u8>>) -> Seq<u8>
    decreases pages.len(),
{
    if pages.len() == 0 {
        Seq::empty()
    } else {
        reassembled(pages.drop_last()) + page_payload(pages.last())
    }
}

/// The first `m` pages of the transfer of `img` to key `key`.
pub open spec fn first_pages(key: u8, img: Seq<u8>, m: nat) -> Seq<Seq<u8>> {
    Seq::new(m, |n: int| page_bytes(key, img, n as nat))
}

/// The payload a page declares is the chunk it was built from.
proof fn lemma_page_payload(key: u8, img: Seq<u8>, n: nat)
    requires
        n < page_count(img.len()),
    ensures
        page_payload(page_bytes(key, img, n)) == chunk_of(img, n),
{
    lemma_page_bounds(img.len(), n);
    lemma_le16(chunk_len(img.len(), n));
    assert(page_payload(page_bytes(key, img, n)) =~= chunk_of(img, n));
}

/// The first `m` pages carry the image up to byte `min(m * PAYLOAD_SIZE, len)`.
proof fn lemma_prefix_reassembled(key: u8, img: Seq<u8>, m: nat)
    requires
        m <= page_count(img.len()),
    ensures
        reassembled(first_pages(key, img, m)) == img.subrange(
            0,
            if chunk_start(m) < img.len() { chunk_start(m) as int } else { img.len() as int },
        ),
    decreases m,
{
    if m == 0 {
        assert(reassembled(first_pages(key, img, 0)) =~= img.subrange(0, 0));
    } else {
        let n = (m - 1) as nat;
        lemma_prefix_reassembled(key, img, n);
        lemma_page_bounds(img.len(), n);
        lemma_page_payload(key, img, n);
        assert(first_pages(key, img, m).drop_last() =~= first_pages(key, img, n));
        if chunk_start(m) >= img.len() {
            let x = img.len() + PAYLOAD_SIZE - 1;
            lemma_fundamental_div_mod(x, PAYLOAD_SIZE as int);
            lemma_mod_bound(x, PAYLOAD_SIZE as int);
        }
        assert(reassembled(first_pages(key, img, m)) =~= img.subrange(
            0,
            if chunk_start(m) < img.len() { chunk_start(m) as int } else { img.len() as int },
        ));
    }
}

/// Reassembly: appending, in page order, the chunk that each page of a
/// transfer declares gives back exactly the image.
pub proof fn lemma_transfer_reassembles(key: u8, img: Seq<u8>)
    ensures
        reassembled(first_pages(key, img, page_count(img.len()))) == img,
{
    let count = page_count(img.len());
    let x = img.len() + PAYLOAD_SIZE - 1;
    lemma_fundamental_div_mod(x, PAYLOAD_SIZE as int);
    lemma_mod_bound(x, PAYLOAD_SIZE as int);
    lemma_prefix_reassembled(key, img, count);
    assert(img.subrange(0, img.len() as int) =~= img);
}

/// Builds page `page_number` of the transfer of `img` to key `key`.
pub fn build_page(key: u8, img: &[u8], page_number: usize) -> (r: Vec<u8>)
    requires
        page_number < page_count(img@.len()),
    ensures
        r@ == page_bytes(key, img@, page_number as nat),
{
    let len: usize = img.len();
    proof {
        lemma_page_bounds(img@.len(), page_number as nat);
        assert(chunk_start(page_number as nat) == page_number as int * PAYLOAD_SIZE as int);
    }
    let start: usize = page_number * PAYLOAD_SIZE;
    let remaining: usize = len - start;
    let this_len: usize = if remaining < PAYLOAD_SIZE { remaining } else { PAYLOAD_SIZE };
    let last: u8 = if this_len == remaining { 1 } else { 0 };
    let ghost header = page_header(key, img@.len(), page_number as nat);
    let mut r: Vec<u8> = Vec::with_capacity(PAGE_SIZE);
    r.push(IMAGE_REPORT_ID);
    r.push(IMAGE_COMMAND);
    r.push(key);
    r.push(last);
    r.push((this_len % 256) as u8);
    r.push((this_len / 256) as u8);
    r.push((page_number % 256) as u8);
    r.push(((page_number / 256) % 256) as u8);
    assert(r@ =~= header);
    let mut i: usize = 0;
    while i < this_len
        invariant
            i <= this_len,
            header.len() == HEADER_SIZE,
            this_len == chunk_len(img@.len(), page_number as nat),
            start == chunk_start(page_number as nat),
            len == img@.len(),
            start + this_len <= img@.len(),
            r@.len() == HEADER_SIZE + i,
            forall|j: int| 0 <= j < HEADER_SIZE ==> r@[j] == header[j],
            forall|j: int| HEADER_SIZE <= j < HEADER_SIZE + i ==> r@[j] == img@[start + j - HEADER_SIZE],
        decreases this_len - i,
    {
        r.push(img[start + i]);
        i = i + 1;
    }
    while r.len() < PAGE_SIZE
        invariant
            HEADER_SIZE + this_len <= r@.len() <= PAGE_SIZE,
            header.len() == HEADER_SIZE,
            this_len == chunk_len(img@.len(), page_number as nat),
            start == chunk_start(page_number as nat),
            forall|j: int| 0 <= j < HEADER_SIZE ==> r@[j] == header[j],
            forall|j: int| HEADER_SIZE <= j < HEADER_SIZE + this_len ==> r@[j] == img@[start + j - HEADER_SIZE],
            forall|j: int| HEADER_SIZE + this_len <= j < r@.len() ==> r@[j] == 0,
        decreases PAGE_SIZE - r@.len(),
    {
        r.push(0u8);
    }
    assert(r@ =~= page_bytes(key, img@, page_number as nat));
    r
}

/// Number of pages for an image of `len` bytes.
pub fn pages_needed(len: usize) -> (r: usize)
    ensures
        r == page_count(len as nat),
{
    proof {
        lemma_fundamental_div_mod(len as int, PAYLOAD_SIZE as int);
        lemma_mod_bound(len as int, PAYLOAD_SIZE as int);
        lemma_fundamental_div_mod(len + PAYLOAD_SIZE - 1, PAYLOAD_SIZE as int);
        lemma_mod_bound(len + PAYLOAD_SIZE - 1, PAYLOAD_SIZE as int);
    }
    let full: usize = len / PAYLOAD_SIZE;
    if len % PAYLOAD_SIZE == 0 { full } else { full + 1 }
}

/// All pages of the transfer of `img` to key `key`, in the order in which
/// they are sent.
pub fn image_pages(key: u8, img: &[u8]) -> (r: Vec<Vec<u8>>)
    ensures
        r@.len() == page_count(img@.len()),
        forall|n: int| 0 <= n < r@.len() ==> #[trigger] r@[n]@ == page_bytes(key, img@, n as nat),
        r@.map_values(|p: Vec<u8>| p@) == first_pages(key, img@, page_count(img@.len())),
{
    let count: usize = pages_needed(img.len());
    let mut pages: Vec<Vec<u8>> = Vec::with_capacity(count);
    let mut n: usize = 0;
    while n < count
        invariant
            n <= count == page_count(img@.len()),
            pages@.len() == n,
            forall|m: int| 0 <= m < n ==> #[trigger] pages@[m]@ == page_bytes(key, img@, m as nat),
        decreases count - n,
    {
        let page = build_page(key, img, n);
        pages.push(page);
        n = n + 1;
    }
    assert(pages@.map_values(|p: Vec<u8>| p@) =~= first_pages(key, img@, count as nat));
    pages
}

} // verus!
