//! Splitting a long message into transport-sized segments.
use vstd::prelude::*;
use vstd::slice::slice_subrange;
use crate::text::{
    all_ws, byte_len, char_width, chars_of, is_ws, lemma_byte_len_concat,
    lemma_byte_len_subrange, lemma_trim_bounds, rfind, rfind_in, trim, trim_range, utf8_width,
};

verus! {

/// Largest segment, in UTF-8 bytes. The transport takes 4096; the rest is
/// headroom for the continuation marker.
pub const MESSAGE_MAX_SIZE: usize = 4000;

/// How many leading characters of `s` fit in `limit` bytes.
pub open spec fn fit_count(s: Seq<char>, limit: int) -> nat
    decreases s.len(),
{
    if s.len() == 0 || char_width(s[0]) > limit {
        0
    } else {
        1 + fit_count(s.drop_first(), limit - char_width(s[0]))
    }
}

/// Where a window is broken: at its last newline, else at its last space.
pub open spec fn break_index(window: Seq<char>) -> Option<int> {
    match rfind(window, '\n') {
        Some(i) => Some(i),
        None => rfind(window, ' '),
    }
}

/// One step of the splitter on the remaining text: the segment, whether it
/// was cut short, and the text that remains after it.
pub open spec fn chunk_step(rest: Seq<char>) -> (Seq<char>, bool, Seq<char>) {
    if byte_len(rest) <= MESSAGE_MAX_SIZE {
        (rest, false, Seq::empty())
    } else {
        let k = fit_count(rest, MESSAGE_MAX_SIZE as int) as int;
        match break_index(rest.take(k)) {
            Some(i) => (trim(rest.take(i)), true, trim(rest.skip(i + 1))),
            None => (rest.take(k), true, rest.skip(k)),
        }
    }
}

/// All segments that the splitter produces from `rest`, in order.
pub open spec fn chunks(rest: Seq<char>) -> Seq<(Seq<char>, bool)>
    decreases rest.len(),
{
    if rest.len() == 0 {
        Seq::empty()
    } else {
        let step = chunk_step(rest);
        if step.2.len() < rest.len() {
            seq![(step.0, step.1)] + chunks(step.2)
        } else {
            seq![(step.0, step.1)]
        }
    }
}

/// The segments of a whole message: those of its trimmed text.
pub open spec fn split_spec(msg: Seq<char>) -> Seq<(Seq<char>, bool)> {
    chunks(trim(msg))
}

pub proof fn lemma_fit_count(s: Seq<char>, limit: int)
    requires
        limit >= 0,
    ensures
        fit_count(s, limit) <= s.len(),
        byte_len(s.take(fit_count(s, limit) as int)) <= limit,
        fit_count(s, limit) == s.len() <==> byte_len(s) <= limit,
        s.len() > 0 && limit >= 4 ==> fit_count(s, limit) >= 1,
    decreases s.len(),
{
    if s.len() == 0 {
        assert(s.take(0) =~= Seq::<char>::empty());
    } else if char_width(s[0]) > limit {
        assert(s.take(0) =~= Seq::<char>::empty());
    } else {
        let w = char_width(s[0]);
        let t = s.drop_first();
        lemma_fit_count(t, limit - w);
        let f = fit_count(t, limit - w) as int;
        assert(s.take(f + 1).drop_first() =~= t.take(f));
    }
}

pub proof fn lemma_rfind(s: Seq<char>, c: char)
    ensures
        rfind(s, c) matches Some(i) ==> 0 <= i < s.len() && s[i] == c,
    decreases s.len(),
{
    if s.len() > 0 && s.last() != c {
        lemma_rfind(s.drop_last(), c);
    }
}

/// Each step yields a segment that fits, and leaves less text than it found.
pub proof fn lemma_chunk_step(rest: Seq<char>)
    requires
        rest.len() > 0,
    ensures
        chunk_step(rest).2.len() < rest.len(),
        byte_len(chunk_step(rest).0) <= MESSAGE_MAX_SIZE,
{
    if byte_len(rest) > MESSAGE_MAX_SIZE {
        let k = fit_count(rest, MESSAGE_MAX_SIZE as int) as int;
        lemma_fit_count(rest, MESSAGE_MAX_SIZE as int);
        let window = rest.take(k);
        lemma_rfind(window, '\n');
        lemma_rfind(window, ' ');
        match break_index(window) {
            Some(i) => {
                let r1 = lemma_trim_bounds(rest.take(i));
                let r2 = lemma_trim_bounds(rest.skip(i + 1));
                lemma_byte_len_subrange(rest.take(i), r1.0, r1.1);
                assert(window.subrange(0, i) =~= rest.take(i));
                lemma_byte_len_subrange(window, 0, i);
            },
            None => {},
        }
    }
}

pub proof fn lemma_chunks_unfold(rest: Seq<char>)
    requires
        rest.len() > 0,
    ensures
        chunks(rest) == seq![(chunk_step(rest).0, chunk_step(rest).1)] + chunks(
            chunk_step(rest).2,
        ),
{
    lemma_chunk_step(rest);
}

/// How many leading characters of `s` fit in `index` bytes: the character
/// boundary at or below byte `index`, counted in characters.
pub fn find_floor_char_boundary(s: &[char], index: usize) -> (r: usize)
    ensures
        r == fit_count(s@, index as int),
{
    let mut i: usize = 0;
    let mut left: usize = index;
    assert(s@.skip(0) =~= s@);
    while i < s.len() && utf8_width(s[i]) <= left
        invariant
            i <= s@.len(),
            left <= index,
            fit_count(s@, index as int) == i + fit_count(s@.skip(i as int), left as int),
        decreases s@.len() - i,
    {
        assert(s@.skip(i as int).drop_first() =~= s@.skip(i + 1));
        left = left - utf8_width(s[i]);
        i = i + 1;
    }
    i
}

/// Cuts a message into segments one at a time, front to back.
pub struct MessageSplitIterator<'a> {
    msg: &'a str,
    chars: Vec<char>,
    start: usize,
    end: usize,
}

impl<'a> MessageSplitIterator<'a> {
    /// The text not yet handed out.
    pub closed spec fn rest(&self) -> Seq<char> {
        self.chars@.subrange(self.start as int, self.end as int)
    }

    pub closed spec fn wf(&self) -> bool {
        &&& self.chars@ == self.msg@
        &&& self.start <= self.end <= self.chars@.len()
    }

    pub fn new(msg: &'a str) -> (r: Self)
        ensures
            r.wf(),
            r.rest() == trim(msg@),
    {
        let chars = chars_of(msg);
        let (start, end) = trim_range(&chars, 0, chars.len());
        assert(chars@.subrange(0, chars@.len() as int) =~= chars@);
        MessageSplitIterator { msg, chars, start, end }
    }

    /// The next segment and whether it was cut short, or `None` once the
    /// whole text has been handed out.
    pub fn next(&mut self) -> (r: Option<(&'a str, bool)>)
        requires
            old(self).wf(),
        ensures
            final(self).wf(),
            old(self).rest().len() == 0 ==> r is None && final(self).rest() == old(self).rest(),
            old(self).rest().len() > 0 ==> {
                &&& r is Some
                &&& (r->0).0@ == chunk_step(old(self).rest()).0
                &&& (r->0).1 == chunk_step(old(self).rest()).1
                &&& final(self).rest() == chunk_step(old(self).rest()).2
            },
    {
        if self.start == self.end {
            return None;
        }
        let ghost rest = self.rest();
        let start = self.start;
        let end = self.end;
        let window = slice_subrange(self.chars.as_slice(), start, end);
        let k = find_floor_char_boundary(window, MESSAGE_MAX_SIZE);
        proof {
            lemma_fit_count(rest, MESSAGE_MAX_SIZE as int);
        }
        if k == end - start {
            let seg = self.msg.substring_char(start, end);
            self.start = end;
            proof {
                assert(self.rest() =~= Seq::<char>::empty());
            }
            return Some((seg, false));
        }
        let cut = start + k;
        assert(self.chars@.subrange(start as int, cut as int) =~= rest.take(k as int));
        let found = match rfind_in(&self.chars, start, cut, '\n') {
            Some(i) => Some(i),
            None => rfind_in(&self.chars, start, cut, ' '),
        };
        match found {
            Some(i) => {
                proof {
                    lemma_rfind(rest.take(k as int), '\n');
                    lemma_rfind(rest.take(k as int), ' ');
                }
                let (a, b) = trim_range(&self.chars, start, i);
                let (c, d) = trim_range(&self.chars, i + 1, end);
                assert(self.chars@.subrange(start as int, i as int) =~= rest.take(i - start));
                assert(self.chars@.subrange(i + 1, end as int) =~= rest.skip(i - start + 1));
                let seg = self.msg.substring_char(a, b);
                self.start = c;
                self.end = d;
                Some((seg, true))
            },
            None => {
                let seg = self.msg.substring_char(start, cut);
                self.start = cut;
                assert(self.rest() =~= rest.skip(k as int));
                Some((seg, true))
            },
        }
    }
}

/// One piece of a split message: its text, and whether it was cut short
/// (and so is sent with a continuation marker).
pub struct Segment {
    pub text: String,
    pub is_partial: bool,
}

impl View for Segment {
    type V = (Seq<char>, bool);

    open spec fn view(&self) -> (Seq<char>, bool) {
        (self.text@, self.is_partial)
    }
}

pub open spec fn segments_view(v: Seq<Segment>) -> Seq<(Seq<char>, bool)> {
    v.map_values(|s: Segment| s@)
}

pub open spec fn texts(segs: Seq<(Seq<char>, bool)>) -> Seq<Seq<char>> {
    segs.map_values(|p: (Seq<char>, bool)| p.0)
}

/// `t` holds the `segs` in order, with nothing but whitespace before, between
/// and after them.
pub open spec fn spaced_concat(segs: Seq<Seq<char>>, t: Seq<char>) -> bool
    decreases segs.len(),
{
    if segs.len() == 0 {
        all_ws(t)
    } else {
        exists|a: int, b: int|
            0 <= a <= b <= t.len() && all_ws(t.take(a)) && #[trigger] t.subrange(a, b) == segs[0]
                && spaced_concat(segs.drop_first(), t.skip(b))
    }
}

impl<'a> MessageSplitIterator<'a> {
    /// Whether the whole text has been handed out.
    pub fn is_done(&self) -> (r: bool)
        requires
            self.wf(),
        ensures
            r == (self.rest().len() == 0),
    {
        self.start == self.end
    }
}

/// Splits `msg` into the segments that are sent for it, in order.
pub fn split_message(msg: &str) -> (r: Vec<Segment>)
    ensures
        segments_view(r@) == split_spec(msg@),
{
    let mut it = MessageSplitIterator::new(msg);
    let mut out: Vec<Segment> = Vec::new();
    while !it.is_done()
        invariant
            it.wf(),
            segments_view(out@) + chunks(it.rest()) == split_spec(msg@),
        decreases it.rest().len(),
    {
        let ghost before = it.rest();
        proof {
            lemma_chunks_unfold(before);
            lemma_chunk_step(before);
        }
        if let Some((s, p)) = it.next() {
            let seg = Segment { text: String::from_str(s), is_partial: p };
            let ghost old_out = out@;
            out.push(seg);
            assert(segments_view(out@) =~= segments_view(old_out) + seq![(s@, p)]);
        }
    }
    assert(chunks(it.rest()) =~= Seq::<(Seq<char>, bool)>::empty());
    assert(segments_view(out@) + chunks(it.rest()) =~= segments_view(out@));
    out
}

proof fn lemma_all_ws_concat(a: Seq<char>, b: Seq<char>)
    requires
        all_ws(a),
        all_ws(b),
    ensures
        all_ws(a + b),
{
    assert forall|i: int| 0 <= i < (a + b).len() implies #[trigger] is_ws((a + b)[i]) by {
        if i >= a.len() {
            assert((a + b)[i] == b[i - a.len()]);
        }
    }
}

/// Whitespace added around a spaced concatenation keeps it one.
proof fn lemma_spaced_pad(segs: Seq<Seq<char>>, t: Seq<char>, u: Seq<char>, v: Seq<char>)
    requires
        spaced_concat(segs, t),
        all_ws(u),
        all_ws(v),
    ensures
        spaced_concat(segs, u + t + v),
    decreases segs.len(),
{
    if segs.len() == 0 {
        lemma_all_ws_concat(u, t);
        lemma_all_ws_concat(u + t, v);
    } else {
        let (a, b) = choose|a: int, b: int|
            0 <= a <= b <= t.len() && all_ws(t.take(a)) && #[trigger] t.subrange(a, b) == segs[0]
                && spaced_concat(segs.drop_first(), t.skip(b));
        let w = u + t + v;
        let a2 = a + u.len();
        let b2 = b + u.len();
        assert(w.take(a2) =~= u + t.take(a));
        lemma_all_ws_concat(u, t.take(a));
        assert(w.subrange(a2, b2) =~= t.subrange(a, b));
        let e = Seq::<char>::empty();
        lemma_spaced_pad(segs.drop_first(), t.skip(b), e, v);
        assert(w.skip(b2) =~= e + t.skip(b) + v);
        assert(all_ws(w.take(a2)));
        assert(w.subrange(a2, b2) == segs[0]);
    }
}

proof fn lemma_chunks_spaced(rest: Seq<char>)
    ensures
        spaced_concat(texts(chunks(rest)), rest),
    decreases rest.len(),
{
    if rest.len() == 0 {
        assert(texts(chunks(rest)) =~= Seq::<Seq<char>>::empty());
    } else {
        lemma_chunks_unfold(rest);
        lemma_chunk_step(rest);
        let step = chunk_step(rest);
        let nr = step.2;
        lemma_chunks_spaced(nr);
        let segs = texts(chunks(rest));
        assert(segs.drop_first() =~= texts(chunks(nr)));
        assert(segs[0] == step.0);
        if byte_len(rest) <= MESSAGE_MAX_SIZE {
            assert(rest.subrange(0, rest.len() as int) =~= rest);
            assert(rest.take(0) =~= Seq::<char>::empty());
            assert(rest.skip(rest.len() as int) =~= nr);
            assert(rest.subrange(0, rest.len() as int) == segs[0]);
        } else {
            let k = fit_count(rest, MESSAGE_MAX_SIZE as int) as int;
            lemma_fit_count(rest, MESSAGE_MAX_SIZE as int);
            let window = rest.take(k);
            lemma_rfind(window, '\n');
            lemma_rfind(window, ' ');
            assert(rest.take(0) =~= Seq::<char>::empty());
            match break_index(window) {
                Some(i) => {
                    let p = rest.take(i);
                    let q = rest.skip(i + 1);
                    let r1 = lemma_trim_bounds(p);
                    let r2 = lemma_trim_bounds(q);
                    assert(window[i] == rest[i]);
                    assert(is_ws(rest[i]));
                    let u = p.skip(r1.1) + seq![rest[i]] + q.take(r2.0);
                    let v = q.skip(r2.1);
                    assert(all_ws(seq![rest[i]]));
                    lemma_all_ws_concat(p.skip(r1.1), seq![rest[i]]);
                    lemma_all_ws_concat(p.skip(r1.1) + seq![rest[i]], q.take(r2.0));
                    lemma_spaced_pad(texts(chunks(nr)), nr, u, v);
                    assert(nr == q.subrange(r2.0, r2.1));
                    assert(rest.skip(r1.1) =~= u + nr + v);
                    assert(rest.take(r1.0) =~= p.take(r1.0));
                    assert(rest.subrange(r1.0, r1.1) =~= p.subrange(r1.0, r1.1));
                    assert(rest.subrange(r1.0, r1.1) == segs[0]);
                },
                None => {
                    assert(rest.subrange(0, k) =~= window);
                    assert(rest.subrange(0, k) == segs[0]);
                },
            }
        }
    }
}

proof fn lemma_chunks_fit(rest: Seq<char>)
    ensures
        forall|i: int|
            0 <= i < chunks(rest).len() ==> byte_len(#[trigger] chunks(rest)[i].0)
                <= MESSAGE_MAX_SIZE,
    decreases rest.len(),
{
    if rest.len() > 0 {
        lemma_chunks_unfold(rest);
        lemma_chunk_step(rest);
        lemma_chunks_fit(chunk_step(rest).2);
        assert forall|i: int| 0 <= i < chunks(rest).len() implies byte_len(
            #[trigger] chunks(rest)[i].0,
        ) <= MESSAGE_MAX_SIZE by {
            if i > 0 {
                assert(chunks(rest)[i] == chunks(chunk_step(rest).2)[i - 1]);
            }
        }
    }
}

proof fn lemma_spaced_run(segs: Seq<Seq<char>>, t: Seq<char>, i: int)
    requires
        spaced_concat(segs, t),
        0 <= i < segs.len(),
    ensures
        exists|a: int, b: int| 0 <= a <= b <= t.len() && #[trigger] t.subrange(a, b) == segs[i],
    decreases i,
{
    let (a, b) = choose|a: int, b: int|
        0 <= a <= b <= t.len() && all_ws(t.take(a)) && #[trigger] t.subrange(a, b) == segs[0]
            && spaced_concat(segs.drop_first(), t.skip(b));
    if i > 0 {
        lemma_spaced_run(segs.drop_first(), t.skip(b), i - 1);
        let (c, d) = choose|c: int, d: int|
            0 <= c <= d <= t.skip(b).len() && #[trigger] t.skip(b).subrange(c, d)
                == segs.drop_first()[i - 1];
        assert(t.subrange(c + b, d + b) =~= t.skip(b).subrange(c, d));
    }
}

/// Read in order, the segments of a message are its trimmed text, with only
/// whitespace left out between them: where the text was broken at a newline
/// or a space, that character and the whitespace around it.
pub proof fn law_split_reconstructs(msg: Seq<char>)
    ensures
        spaced_concat(texts(split_spec(msg)), trim(msg)),
{
    lemma_chunks_spaced(trim(msg));
}

/// No segment cuts through a character: each one is a run of whole
/// characters of the trimmed message.
pub proof fn law_split_whole_chars(msg: Seq<char>, i: int)
    requires
        0 <= i < split_spec(msg).len(),
    ensures
        exists|a: int, b: int|
            0 <= a <= b <= trim(msg).len() && #[trigger] trim(msg).subrange(a, b)
                == split_spec(msg)[i].0,
{
    lemma_chunks_spaced(trim(msg));
    assert(texts(split_spec(msg))[i] == split_spec(msg)[i].0);
    lemma_spaced_run(texts(split_spec(msg)), trim(msg), i);
}

/// Every segment takes at most `MESSAGE_MAX_SIZE` bytes in UTF-8.
pub proof fn law_split_fits(msg: Seq<char>)
    ensures
        forall|i: int|
            0 <= i < split_spec(msg).len() ==> byte_len(#[trigger] split_spec(msg)[i].0)
                <= MESSAGE_MAX_SIZE,
{
    lemma_chunks_fit(trim(msg));
}

} // verus!
