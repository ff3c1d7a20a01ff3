//! The canonical post: its content-derived identity and its rendering.
use vstd::prelude::*;
use crate::date::Date;
use crate::text::{chars_of, trim, trim_range};

verus! {

/// The SHA-1 digest of the UTF-8 bytes of a text.
pub uninterp spec fn sha1_of_text(s: Seq<char>) -> Seq<u8>;

/// Relies on `sha1::Sha1` (`Digest::update` then `finalize`): the digest of
/// the bytes of `msg`, which is twenty bytes long.
#[verifier::external_body]
fn sha1_bytes(msg: &str) -> (r: Vec<u8>)
    ensures
        r@ == sha1_of_text(msg@),
        r@.len() == 20,
{
    let mut hasher = <sha1::Sha1 as sha1::Digest>::new();
    sha1::Digest::update(&mut hasher, msg.as_bytes());
    sha1::Digest::finalize(hasher).to_vec()
}

pub open spec fn hex_digit(n: int) -> char {
    seq!['0', '1', '2', '3', '4', '5', '6', '7', '8', '9', 'A', 'B', 'C', 'D', 'E', 'F'][n]
}

/// Each byte as two upper-case hexadecimal digits, high digit first.
pub open spec fn hex_upper(b: Seq<u8>) -> Seq<char>
    decreases b.len(),
{
    if b.len() == 0 {
        Seq::empty()
    } else {
        hex_upper(b.drop_last()) + seq![
            hex_digit(b.last() as int / 16),
            hex_digit(b.last() as int % 16),
        ]
    }
}

/// The identity of a post whose body is `body`.
pub open spec fn identity_of(body: Seq<char>) -> Seq<char> {
    hex_upper(sha1_of_text(body))
}

/// Length of the run of line breaks (`\n` or `\r\n`) at the start of `s`.
pub open spec fn line_break_run(s: Seq<char>) -> nat
    decreases s.len(),
{
    if s.len() >= 1 && s[0] == '\n' {
        1 + line_break_run(s.drop_first())
    } else if s.len() >= 2 && s[0] == '\r' && s[1] == '\n' {
        2 + line_break_run(s.skip(2))
    } else {
        0
    }
}

/// `s` with every run of line breaks replaced by one blank line.
pub open spec fn collapse_breaks(s: Seq<char>) -> Seq<char>
    decreases s.len(),
{
    if s.len() == 0 {
        Seq::empty()
    } else if line_break_run(s) > 0 && line_break_run(s) <= s.len() {
        seq!['\n', '\n'] + collapse_breaks(s.skip(line_break_run(s) as int))
    } else {
        seq![s[0]] + collapse_breaks(s.drop_first())
    }
}

/// Relies on regex's `Regex::replace_all` with the pattern `(\r?\n)+`: each
/// leftmost, longest run of line breaks becomes "\n\n", the rest is kept.
#[verifier::external_body]
fn replace_line_breaks(s: &str) -> (r: String)
    ensures
        r@ == collapse_breaks(s@),
{
    regex::Regex::new("(\\r?\\n)+").unwrap().replace_all(s, "\n\n").into_owned()
}

/// The bytes of `data` in upper-case hexadecimal.
pub fn encode_to_hex(data: &[u8]) -> (r: String)
    ensures
        r@ == hex_upper(data@),
{
    let digits = "0123456789ABCDEF";
    proof {
        reveal_strlit("0123456789ABCDEF");
        assert(digits@ =~= seq![
            '0', '1', '2', '3', '4', '5', '6', '7', '8', '9', 'A', 'B', 'C', 'D', 'E', 'F',
        ]);
    }
    let mut ans = String::new();
    let mut i: usize = 0;
    while i < data.len()
        invariant
            i <= data@.len(),
            digits@ == seq![
                '0', '1', '2', '3', '4', '5', '6', '7', '8', '9', 'A', 'B', 'C', 'D', 'E', 'F',
            ],
            ans@ == hex_upper(data@.take(i as int)),
        decreases data@.len() - i,
    {
        let byte = data[i];
        let high = (byte / 16) as usize;
        let low = (byte % 16) as usize;
        ans.append(digits.substring_char(high, high + 1));
        ans.append(digits.substring_char(low, low + 1));
        proof {
            let t = data@.take(i + 1);
            assert(t.drop_last() =~= data@.take(i as int));
            assert(digits@.subrange(high as int, high + 1) =~= seq![hex_digit(byte as int / 16)]);
            assert(digits@.subrange(low as int, low + 1) =~= seq![hex_digit(byte as int % 16)]);
            assert(ans@ =~= hex_upper(t));
        }
        i = i + 1;
    }
    assert(data@.take(data@.len() as int) =~= data@);
    ans
}

/// The hexadecimal SHA-1 digest of `msg`.
pub fn sha1_digest(msg: &String) -> (r: String)
    ensures
        r@ == identity_of(msg@),
{
    let digest = sha1_bytes(msg.as_str());
    encode_to_hex(digest.as_slice())
}

/// One article as fetched from a source.
pub struct NewsPost {
    id: String,
    title: String,
    url: String,
    content: String,
    date: Option<Date>,
}

/// The date line of a rendered post.
pub open spec fn date_text(date: Option<Date>) -> Seq<char> {
    match date {
        Some(d) => d.dmy_text(),
        None => "-"@,
    }
}

/// A post as the channel shows it: the title linking to the article, the
/// date in italics, then the body with its line breaks collapsed.
pub open spec fn markdown_of(
    title: Seq<char>,
    url: Seq<char>,
    date: Option<Date>,
    content: Seq<char>,
) -> Seq<char> {
    "["@ + title + "]("@ + url + ")\n\n"@ + "_Data: "@ + date_text(date) + "_\n\n"@
        + collapse_breaks(trim(content))
}

impl NewsPost {
    #[verifier::type_invariant]
    spec fn inv(&self) -> bool {
        &&& self.id@ == identity_of(self.content@)
        &&& self.date matches Some(d) ==> d.valid()
    }

    /// The identity: the digest of the body.
    pub closed spec fn spec_id(&self) -> Seq<char> {
        identity_of(self.content@)
    }

    pub closed spec fn spec_title(&self) -> Seq<char> {
        self.title@
    }

    pub closed spec fn spec_url(&self) -> Seq<char> {
        self.url@
    }

    pub closed spec fn spec_content(&self) -> Seq<char> {
        self.content@
    }

    pub closed spec fn spec_date(&self) -> Option<Date> {
        self.date
    }

    /// A post, with its identity taken from `content` alone.
    pub fn new(title: String, url: String, content: String, date: Option<Date>) -> (r: Self)
        requires
            date matches Some(d) ==> d.valid(),
        ensures
            r.spec_id() == identity_of(content@),
            r.spec_title() == title@,
            r.spec_url() == url@,
            r.spec_content() == content@,
            r.spec_date() == date,
    {
        let id = sha1_digest(&content);
        NewsPost { id, title, url, content, date }
    }

    pub fn id(&self) -> (r: &str)
        ensures
            r@ == self.spec_id(),
            r@ == identity_of(self.spec_content()),
    {
        proof {
            use_type_invariant(self);
        }
        self.id.as_str()
    }

    pub fn date(&self) -> (r: &Option<Date>)
        ensures
            *r == self.spec_date(),
            r matches Some(d) ==> d.valid(),
    {
        proof {
            use_type_invariant(self);
        }
        &self.date
    }

    /// The post rendered with light markup for the channel.
    pub fn as_markdown_string(&self) -> (r: String)
        ensures
            r@ == markdown_of(
                self.spec_title(),
                self.spec_url(),
                self.spec_date(),
                self.spec_content(),
            ),
    {
        proof {
            use_type_invariant(self);
        }
        let date_str = match &self.date {
            Some(d) => d.format_dmy(),
            None => String::from_str("-"),
        };
        let mut ans = String::new();
        ans.append("[");
        ans.append(self.title.as_str());
        ans.append("](");
        ans.append(self.url.as_str());
        ans.append(")\n\n");
        ans.append("_Data: ");
        ans.append(date_str.as_str());
        ans.append("_\n\n");
        let body = self.formated_content();
        ans.append(body.as_str());
        ans
    }

    /// The body, trimmed, with each run of line breaks made one blank line.
    pub fn formated_content(&self) -> (r: String)
        ensures
            r@ == collapse_breaks(trim(self.spec_content())),
    {
        let s = self.content.as_str();
        let chars = chars_of(s);
        let (a, b) = trim_range(&chars, 0, chars.len());
        assert(chars@.subrange(0, chars@.len() as int) =~= chars@);
        let trimmed = s.substring_char(a, b);
        replace_line_breaks(trimmed)
    }
}

/// Whether a list excerpt was cut short by its source: it ends in "...".
pub fn is_truncated_excerpt(s: &str) -> (r: bool)
    ensures
        r == (s@.len() >= 3 && s@.skip(s@.len() - 3) == seq!['.', '.', '.']),
{
    let n = s.unicode_len();
    if n < 3 {
        return false;
    }
    let r = s.get_char(n - 3) == '.' && s.get_char(n - 2) == '.' && s.get_char(n - 1) == '.';
    proof {
        if r {
            assert(s@.skip(n - 3) =~= seq!['.', '.', '.']);
        } else {
            if s@.skip(n - 3) == seq!['.', '.', '.'] {
                assert(s@[n - 3] == s@.skip(n - 3)[0]);
                assert(s@[n - 2] == s@.skip(n - 3)[1]);
                assert(s@[n - 1] == s@.skip(n - 3)[2]);
            }
        }
    }
    r
}

/// The identity of a post depends on its body alone: two posts with the same
/// body have the same identity, whatever their title, link or date.
pub proof fn law_identity_from_body(p: &NewsPost, q: &NewsPost)
    requires
        p.spec_content() == q.spec_content(),
    ensures
        p.spec_id() == q.spec_id(),
{
}

} // verus!
