//! What the delivery channel sends for one message.
use vstd::prelude::*;
use crate::chunker::{law_split_fits, split_message, split_spec, MESSAGE_MAX_SIZE};
use crate::text::{byte_len, char_width, lemma_byte_len_concat, lemma_byte_len_is_utf8_len};
use vstd::utf8::encode_utf8;

verus! {

/// Hard limit of the transport on one message, in UTF-8 bytes.
pub const TRANSPORT_MAX_SIZE: usize = 4096;

/// How the transport reads a message's text.
#[derive(Clone, Copy, PartialEq, Eq, Debug)]
pub enum TelegramParseMode {
    Markdown,
    PlainText,
}

impl TelegramParseMode {
    /// The transport's name for the mode; plain text has none.
    pub fn get_value(&self) -> (r: Option<String>)
        ensures
            *self == TelegramParseMode::Markdown ==> (r matches Some(s) && s@ == "Markdown"@),
            *self == TelegramParseMode::PlainText ==> r is None,
    {
        match self {
            TelegramParseMode::Markdown => Some(String::from_str("Markdown")),
            TelegramParseMode::PlainText => None,
        }
    }
}

/// Appended to a segment that was cut short.
pub open spec fn continuation_marker() -> Seq<char> {
    " […]"@
}

/// The text sent for one segment.
pub open spec fn outgoing(seg: (Seq<char>, bool)) -> Seq<char> {
    if seg.1 {
        seg.0 + continuation_marker()
    } else {
        seg.0
    }
}

/// The texts sent for a whole message, in order.
pub open spec fn outgoing_all(msg: Seq<char>) -> Seq<Seq<char>> {
    split_spec(msg).map_values(|p: (Seq<char>, bool)| outgoing(p))
}

pub open spec fn strings_view(v: Seq<String>) -> Seq<Seq<char>> {
    v.map_values(|s: String| s@)
}

/// The texts to hand to the transport for `msg`, in the order they are sent:
/// each segment, with the continuation marker after those cut short.
pub fn outgoing_texts(msg: &str) -> (r: Vec<String>)
    ensures
        strings_view(r@) == outgoing_all(msg@),
{
    let segments = split_message(msg);
    let mut out: Vec<String> = Vec::new();
    let mut i: usize = 0;
    while i < segments.len()
        invariant
            i <= segments@.len(),
            segments@.map_values(|s: crate::chunker::Segment| s@) == split_spec(msg@),
            strings_view(out@) == outgoing_all(msg@).take(i as int),
        decreases segments@.len() - i,
    {
        let seg = &segments[i];
        let mut text = seg.text.clone();
        if seg.is_partial {
            text.append(" […]");
        }
        let ghost old_out = out@;
        out.push(text);
        assert(strings_view(out@) =~= strings_view(old_out) + seq![text@]);
        assert(outgoing_all(msg@).take(i + 1) =~= outgoing_all(msg@).take(i as int) + seq![
            outgoing_all(msg@)[i as int],
        ]);
        i = i + 1;
    }
    assert(outgoing_all(msg@).take(i as int) =~= outgoing_all(msg@));
    out
}

/// Every text handed to the transport, marker included, is within its limit
/// in UTF-8 bytes.
pub proof fn law_outgoing_fits_transport(msg: Seq<char>)
    ensures
        forall|i: int|
            0 <= i < outgoing_all(msg).len() ==> byte_len(#[trigger] outgoing_all(msg)[i])
                <= TRANSPORT_MAX_SIZE,
        forall|i: int|
            0 <= i < outgoing_all(msg).len() ==> encode_utf8(#[trigger] outgoing_all(msg)[i]).len()
                <= TRANSPORT_MAX_SIZE,
{
    law_split_fits(msg);
    reveal_strlit(" […]");
    let m = continuation_marker();
    assert(m =~= seq![' ', '[', '\u{2026}', ']']);
    let m3 = m.drop_first().drop_first().drop_first();
    assert(m3 =~= seq![']']);
    assert(m3.drop_first() =~= Seq::<char>::empty());
    assert((']' as u32) == 0x5D);
    assert(('[' as u32) == 0x5B);
    assert((' ' as u32) == 0x20);
    assert(('\u{2026}' as u32) == 0x2026);
    assert(byte_len(m3.drop_first()) == 0);
    assert(m3[0] == ']');
    assert(char_width(']') == 1);
    assert(byte_len(m3) == 1);
    assert(byte_len(m.drop_first().drop_first()) == 4);
    assert(byte_len(m.drop_first()) == 5);
    assert(byte_len(m) == 6);
    assert forall|i: int| 0 <= i < outgoing_all(msg).len() implies byte_len(
        #[trigger] outgoing_all(msg)[i],
    ) <= TRANSPORT_MAX_SIZE by {
        let seg = split_spec(msg)[i];
        assert(byte_len(seg.0) <= MESSAGE_MAX_SIZE);
        lemma_byte_len_concat(seg.0, m);
    }
    assert forall|i: int| 0 <= i < outgoing_all(msg).len() implies encode_utf8(
        #[trigger] outgoing_all(msg)[i],
    ).len() <= TRANSPORT_MAX_SIZE by {
        lemma_byte_len_is_utf8_len(outgoing_all(msg)[i]);
    }
}

} // verus!
