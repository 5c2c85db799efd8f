//! Agent-markdown rendering of a document bundle: a header comment with the
//! document id, its hpath as a JSON string and the page figures, then each
//! block behind a `<!-- sy:block ... -->` marker, and for a document of
//! several pages a closing `<!-- sy:page ... -->` line.

use vstd::prelude::*;

use crate::block::{kernel_name, BlockNode, BlockNodeView, BlockType};
use crate::bundle::DocBundle;
use crate::section::views;
use crate::text::{dec_digits, dec_u64, owned, push_str};

verus! {

/// What `serde_json::to_string` produces for a string.
pub uninterp spec fn json_string_text(s: Seq<char>) -> Seq<char>;

/// `true` for characters JSON leaves unescaped in a string: anything but
/// `"`, `\\` and the control characters below U+0020.
pub open spec fn plain_json_char(c: char) -> bool {
    c != '"' && c != '\\' && ' ' <= c
}

/// Quotes a string as JSON.
///
/// Trusted: wraps `serde_json::to_string` on a `str`; the result is named
/// `json_string_text` of the text, and, as serde_json escapes only `"`,
/// `\\` and control characters, a text without those comes out verbatim
/// between double quotes. A failed serialisation (which a `str` does not
/// produce) would give the empty string.
#[verifier::external_body]
fn json_quote(s: &str) -> (r: String)
    ensures
        r@ == json_string_text(s@),
        (forall|i: int| 0 <= i < s@.len() ==> plain_json_char(#[trigger] s@[i])) ==> r@ == seq!['"'] + s@ + seq!['"'],
{
    serde_json::to_string(s).unwrap_or_default()
}

/// The text of one block: its marker line, then its markdown, fenced when
/// the block is a superblock.
pub open spec fn block_text(b: BlockNodeView) -> Seq<char> {
    let sub = match b.subtype {
        Some(s) => s,
        None => Seq::empty(),
    };
    "<!-- sy:block id="@ + b.id + " type="@ + kernel_name(b.block_type) + " subtype="@ + sub + " -->\n"@
        + if b.block_type == BlockType::SuperBlock {
            ":::sy-superblock id="@ + b.id + "\n"@ + b.markdown + "\n"@ + ":::\n"@
        } else {
            b.markdown + "\n"@
        }
}

/// The texts of the blocks, each followed by an empty line.
pub open spec fn blocks_text(bs: Seq<BlockNodeView>) -> Seq<char>
    decreases bs.len(),
{
    if bs.len() == 0 {
        Seq::empty()
    } else {
        blocks_text(bs.drop_last()) + block_text(bs.last()) + "\n"@
    }
}

/// Blocks of the document after the ones this page shows: the total less
/// the earlier pages' blocks and this page's, never below zero.
pub open spec fn remaining_blocks(b: DocBundle) -> nat {
    let before: int = if b.page.page >= 1 { (b.page.page - 1) * b.page.page_size } else { 0 };
    let shown: int = before + b.blocks@.len();
    if b.page.total_blocks > shown { (b.page.total_blocks - shown) as nat } else { 0 }
}

/// The closing comment of a page of a document that spans several pages:
/// the page, the page count and the blocks still to read; nothing for a
/// one-page document.
pub open spec fn page_footer(b: DocBundle) -> Seq<char> {
    if b.page.total_pages > 1 {
        "<!-- sy:page "@ + dec_digits(b.page.page as nat) + "/"@ + dec_digits(b.page.total_pages as nat)
            + " blocks remaining: "@ + dec_digits(remaining_blocks(b)) + " -->\n"@
    } else {
        Seq::empty()
    }
}

/// The rendering of a bundle: the header comment, an empty line, the
/// blocks, then the page footer of a document with several pages.
pub open spec fn doc_text(b: DocBundle) -> Seq<char> {
    "<!-- sy:doc id="@ + b.doc.id@ + " hpath="@ + json_string_text(b.doc.hpath@) + " page="@
        + dec_digits(b.page.page as nat) + " of "@ + dec_digits(b.page.total_pages as nat) + " -->\n"@ + "\n"@
        + blocks_text(views(b.blocks@)) + page_footer(b)
}

/// Counts the blocks after this page; see [`remaining_blocks`].
fn blocks_remaining(bundle: &DocBundle) -> (r: u64)
    ensures
        r as nat == remaining_blocks(*bundle),
{
    let page = bundle.page.page as u128;
    let size = bundle.page.page_size as u128;
    let before: u128 = if page >= 1 {
        assert((page - 1) * size <= 0xFFFF_FFFF_FFFF_FFFFu128 * 0xFFFF_FFFF_FFFF_FFFFu128) by (nonlinear_arith)
            requires
                page - 1 <= 0xFFFF_FFFF_FFFF_FFFFu128,
                size <= 0xFFFF_FFFF_FFFF_FFFFu128,
        ;
        (page - 1) * size
    } else {
        0
    };
    let shown: u128 = before + bundle.blocks.len() as u128;
    let total = bundle.page.total_blocks as u128;
    if total > shown {
        (total - shown) as u64
    } else {
        0
    }
}

/// Appends the text of one block; see [`block_text`].
pub fn render_block(out: &mut String, b: &BlockNode)
    ensures
        final(out)@ == old(out)@ + block_text(b@),
{
    let ghost start = out@;
    push_str(out, "<!-- sy:block id=");
    push_str(out, b.id.as_str());
    push_str(out, " type=");
    push_str(out, b.block_type.as_kernel());
    push_str(out, " subtype=");
    match &b.subtype {
        Some(s) => push_str(out, s.as_str()),
        None => push_str(out, ""),
    }
    proof {
        reveal_strlit("");
    }
    push_str(out, " -->\n");
    if b.block_type == BlockType::SuperBlock {
        push_str(out, ":::sy-superblock id=");
        push_str(out, b.id.as_str());
        push_str(out, "\n");
        push_str(out, b.markdown.as_str());
        push_str(out, "\n");
        push_str(out, ":::\n");
    } else {
        push_str(out, b.markdown.as_str());
        push_str(out, "\n");
    }
    assert(out@ =~= start + block_text(b@));
}

/// Renders a bundle; see [`doc_text`].
pub fn render_doc(bundle: &DocBundle) -> (r: String)
    ensures
        r@ == doc_text(*bundle),
{
    let mut out = owned("<!-- sy:doc id=");
    push_str(&mut out, bundle.doc.id.as_str());
    push_str(&mut out, " hpath=");
    let h = json_quote(bundle.doc.hpath.as_str());
    push_str(&mut out, h.as_str());
    push_str(&mut out, " page=");
    let p = dec_u64(bundle.page.page as u64);
    push_str(&mut out, p.as_str());
    push_str(&mut out, " of ");
    let t = dec_u64(bundle.page.total_pages as u64);
    push_str(&mut out, t.as_str());
    push_str(&mut out, " -->\n");
    push_str(&mut out, "\n");
    let ghost head = out@;
    let ghost bs = views(bundle.blocks@);
    let mut i: usize = 0;
    assert(bs.take(0) =~= Seq::<BlockNodeView>::empty());
    assert(out@ =~= head + blocks_text(bs.take(0)));
    while i < bundle.blocks.len()
        invariant
            bs == views(bundle.blocks@),
            i <= bs.len(),
            out@ == head + blocks_text(bs.take(i as int)),
        decreases bs.len() - i,
    {
        render_block(&mut out, &bundle.blocks[i]);
        push_str(&mut out, "\n");
        proof {
            assert(bs.take(i + 1).drop_last() =~= bs.take(i as int));
            assert(bs.take(i + 1).last() == bundle.blocks@[i as int]@);
            assert(out@ =~= head + blocks_text(bs.take(i + 1)));
        }
        i = i + 1;
    }
    assert(bs.take(bs.len() as int) =~= bs);
    if bundle.page.total_pages > 1 {
        push_str(&mut out, "<!-- sy:page ");
        let p = dec_u64(bundle.page.page as u64);
        push_str(&mut out, p.as_str());
        push_str(&mut out, "/");
        let t = dec_u64(bundle.page.total_pages as u64);
        push_str(&mut out, t.as_str());
        push_str(&mut out, " blocks remaining: ");
        let rest = dec_u64(blocks_remaining(bundle));
        push_str(&mut out, rest.as_str());
        push_str(&mut out, " -->\n");
    }
    out
}

} // verus!
