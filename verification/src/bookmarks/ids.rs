//! Stable bookmark IDs: `bookmark-` and the first 32 hex digits of a SHA-256
//! over the evidence that produced the bookmark, so a rerun on the same
//! evidence yields the same ID.

use vstd::prelude::*;

use crate::digest::{hex_of, sha256, sha256_hex};
use crate::text::{chars_of, push_str, string_of, trim_ws, trimmed};
use vstd::bytes::{spec_u32_to_le_bytes, u32_to_le_bytes};
use vstd::utf8::encode_utf8;

verus! {

/// Appends every byte of `b` to `out`.
pub(crate) fn push_bytes(out: &mut Vec<u8>, b: &[u8])
    ensures
        final(out)@ == old(out)@ + b@,
{
    let mut i: usize = 0;
    while i < b.len()
        invariant
            i <= b@.len(),
            out@ == old(out)@ + b@.take(i as int),
        decreases b.len() - i,
    {
        out.push(b[i]);
        i = i + 1;
        assert(out@ =~= old(out)@ + b@.take(i as int));
    }
    assert(b@.take(b@.len() as int) =~= b@);
}

/// The byte `0` that separates the fields of a contents-entry seed.
pub open spec fn nul() -> Seq<u8> {
    seq![0u8]
}

/// The line IDs of a contents entry, each preceded by a separator.
pub open spec fn lines_seed(lines: Seq<Seq<char>>) -> Seq<u8>
    decreases lines.len(),
{
    if lines.len() == 0 {
        Seq::empty()
    } else {
        lines_seed(lines.drop_last()) + nul() + encode_utf8(lines.last())
    }
}

/// The bytes hashed for a bookmark that comes from a printed contents entry.
pub open spec fn toc_seed(
    source: Seq<char>,
    rule_config_digest: Seq<char>,
    page_id: Seq<char>,
    line_ids: Seq<Seq<char>>,
    raw_title: Seq<char>,
    body_line_id: Seq<char>,
) -> Seq<u8> {
    encode_utf8(source) + nul() + encode_utf8(rule_config_digest) + nul() + encode_utf8(page_id)
        + lines_seed(line_ids) + nul() + encode_utf8(raw_title) + nul() + encode_utf8(body_line_id)
}

/// The bytes hashed for a bookmark that comes from an embedded outline item.
pub open spec fn outline_seed(
    source: Seq<char>,
    evidence_page_id: Seq<char>,
    ordinal: u32,
    target_page_id: Seq<char>,
    title: Seq<char>,
) -> Seq<u8> {
    encode_utf8(source) + encode_utf8(evidence_page_id) + spec_u32_to_le_bytes(ordinal)
        + encode_utf8(target_page_id) + encode_utf8(title)
}

/// `bookmark-` and the first 32 hex digits of the SHA-256 of `seed`.
pub open spec fn bookmark_id(seed: Seq<u8>) -> Seq<char> {
    "bookmark-"@ + hex_of(sha256(seed)).take(32)
}

fn bookmark_id_of(seed: &[u8]) -> (id: String)
    ensures
        id@ == bookmark_id(seed@),
{
    let digest = sha256_hex(seed);
    let hex = chars_of(digest.as_str());
    let mut short: Vec<char> = Vec::new();
    let mut i: usize = 0;
    while i < 32
        invariant
            hex@ == hex_of(sha256(seed@)),
            hex@.len() == 64,
            i <= 32,
            short@ == hex@.take(i as int),
        decreases 32 - i,
    {
        short.push(hex[i]);
        i = i + 1;
        assert(short@ =~= hex@.take(i as int));
    }
    let mut id = String::new();
    push_str(&mut id, "bookmark-");
    let tail = string_of(short.as_slice());
    push_str(&mut id, tail.as_str());
    proof {
        reveal_strlit("bookmark-");
    }
    id
}

/// The ID of a bookmark proposed from a printed contents entry: the source,
/// the rule-configuration digest, the contents page, each contents line, the
/// raw title and the matched body line (empty when there is none), separated
/// by zero bytes.
pub fn stable_toc_id(
    source: &str,
    rule_config_digest: &str,
    page_id: &str,
    line_ids: &[String],
    raw_title: &str,
    body_line_id: Option<&str>,
) -> (id: String)
    ensures
        id@ == bookmark_id(
            toc_seed(
                source@,
                rule_config_digest@,
                page_id@,
                line_ids@.map_values(|l: String| l@),
                raw_title@,
                match body_line_id {
                    Some(b) => b@,
                    None => Seq::empty(),
                },
            ),
        ),
{
    let ghost lv = line_ids@.map_values(|l: String| l@);
    let mut seed: Vec<u8> = Vec::new();
    push_bytes(&mut seed, source.as_bytes());
    seed.push(0u8);
    push_bytes(&mut seed, rule_config_digest.as_bytes());
    seed.push(0u8);
    push_bytes(&mut seed, page_id.as_bytes());
    let ghost head = seed@;
    let mut i: usize = 0;
    while i < line_ids.len()
        invariant
            i <= line_ids@.len(),
            lv == line_ids@.map_values(|l: String| l@),
            seed@ == head + lines_seed(lv.take(i as int)),
        decreases line_ids.len() - i,
    {
        seed.push(0u8);
        push_bytes(&mut seed, line_ids[i].as_str().as_bytes());
        proof {
            assert(lv.take(i + 1 as int).drop_last() =~= lv.take(i as int));
            assert(lv.take(i + 1 as int).last() == line_ids@[i as int]@);
        }
        i = i + 1;
        assert(seed@ =~= head + lines_seed(lv.take(i as int)));
    }
    assert(lv.take(line_ids@.len() as int) =~= lv);
    seed.push(0u8);
    push_bytes(&mut seed, raw_title.as_bytes());
    seed.push(0u8);
    let body: &str = match body_line_id {
        Some(b) => b,
        None => "",
    };
    proof {
        reveal_strlit("");
    }
    push_bytes(&mut seed, body.as_bytes());
    let ghost want = toc_seed(
        source@,
        rule_config_digest@,
        page_id@,
        lv,
        raw_title@,
        body@,
    );
    assert(seed@ =~= want);
    bookmark_id_of(seed.as_slice())
}

/// The ID of a bookmark taken from an embedded outline item: the source, the
/// page that carries the outline, the item's ordinal as four little-endian
/// bytes, the target page and the title, with no separators.
pub fn stable_outline_id(
    source: &str,
    evidence_page_id: &str,
    ordinal: u32,
    target_page_id: &str,
    title: &str,
) -> (id: String)
    ensures
        id@ == bookmark_id(outline_seed(source@, evidence_page_id@, ordinal, target_page_id@, title@)),
{
    let mut seed: Vec<u8> = Vec::new();
    push_bytes(&mut seed, source.as_bytes());
    push_bytes(&mut seed, evidence_page_id.as_bytes());
    let le = u32_to_le_bytes(ordinal);
    push_bytes(&mut seed, le.as_slice());
    push_bytes(&mut seed, target_page_id.as_bytes());
    push_bytes(&mut seed, title.as_bytes());
    assert(seed@ =~= outline_seed(source@, evidence_page_id@, ordinal, target_page_id@, title@));
    bookmark_id_of(seed.as_slice())
}

/// The bytes hashed for a bookmark proposed from a body line: the source,
/// the page's physical index as four little-endian bytes, the trimmed
/// title and the line's box written as text, with no separators.
pub open spec fn line_seed(source: Seq<char>, page: u32, title: Seq<char>, bbox_text: Seq<char>) -> Seq<u8> {
    encode_utf8(source) + spec_u32_to_le_bytes(page) + encode_utf8(trim_ws(title)) + encode_utf8(bbox_text)
}

/// The ID of a bookmark proposed from a body line; `bbox_text` is the
/// line's box as `x,y,width,height`, each with six decimals.
pub fn stable_id(source: &str, page: u32, title: &str, bbox_text: &str) -> (id: String)
    ensures
        id@ == bookmark_id(line_seed(source@, page, title@, bbox_text@)),
{
    let chars = chars_of(title);
    let t = trimmed(chars.as_slice());
    let trimmed_title = string_of(t.as_slice());
    let mut seed: Vec<u8> = Vec::new();
    push_bytes(&mut seed, source.as_bytes());
    let le = u32_to_le_bytes(page);
    push_bytes(&mut seed, le.as_slice());
    push_bytes(&mut seed, trimmed_title.as_str().as_bytes());
    push_bytes(&mut seed, bbox_text.as_bytes());
    assert(seed@ =~= line_seed(source@, page, title@, bbox_text@));
    bookmark_id_of(seed.as_slice())
}

} // verus!
