//! SVG output: the document frame, group bookkeeping, escaping, and the
//! inline encoding of embedded images.

use vstd::prelude::*;

use crate::color::{css_color, Color, RenderOptions};
use crate::text::{dec, push_char, push_str};

verus! {

// ---------------------------------------------------------------------------
// Base64

/// The base64 alphabet.
pub open spec fn b64_char(v: int) -> char {
    if v < 26 {
        (65 + v) as char
    } else if v < 52 {
        (97 + v - 26) as char
    } else if v < 62 {
        (48 + v - 52) as char
    } else if v == 62 {
        '+'
    } else {
        '/'
    }
}

/// The four characters of a full three-byte group.
pub open spec fn b64_group(a: u8, b: u8, c: u8) -> Seq<char> {
    let (a, b, c) = (a as int, b as int, c as int);
    seq![
        b64_char(a / 4),
        b64_char((a % 4) * 16 + b / 16),
        b64_char((b % 16) * 4 + c / 64),
        b64_char(c % 64),
    ]
}

/// Standard base64 (with `=` padding) of a byte run.
pub open spec fn base64(d: Seq<u8>) -> Seq<char>
    decreases d.len(),
{
    if d.len() >= 3 {
        b64_group(d[0], d[1], d[2]) + base64(d.skip(3))
    } else if d.len() == 2 {
        let (a, b) = (d[0] as int, d[1] as int);
        seq![b64_char(a / 4), b64_char((a % 4) * 16 + b / 16), b64_char((b % 16) * 4), '=']
    } else if d.len() == 1 {
        let a = d[0] as int;
        seq![b64_char(a / 4), b64_char((a % 4) * 16), '=', '=']
    } else {
        seq![]
    }
}

fn b64_char_of(v: u8) -> (c: char)
    requires
        v < 64,
    ensures
        c == b64_char(v as int),
{
    if v < 26 {
        (65 + v) as char
    } else if v < 52 {
        (97 + v - 26) as char
    } else if v < 62 {
        (48 + v - 52) as char
    } else if v == 62 {
        '+'
    } else {
        '/'
    }
}

/// Base64 encoder (standard alphabet, `=` padding), used for inline image data.
pub fn base64_encode(data: &[u8]) -> (s: String)
    ensures
        s@ == base64(data@),
{
    let mut out = String::new();
    let mut i: usize = 0;
    let n = data.len();
    assert(data@.skip(0) =~= data@);
    assert(out@ + base64(data@) =~= base64(data@));
    while n - i >= 3
        invariant
            n == data@.len(),
            i <= n,
            out@ + base64(data@.skip(i as int)) == base64(data@),
        decreases n - i,
    {
        let a = data[i];
        let b = data[i + 1];
        let c = data[i + 2];
        let ghost before = out@;
        push_char(&mut out, b64_char_of(a / 4));
        push_char(&mut out, b64_char_of((a % 4) * 16 + b / 16));
        push_char(&mut out, b64_char_of((b % 16) * 4 + c / 64));
        push_char(&mut out, b64_char_of(c % 64));
        let ghost rest = data@.skip(i as int);
        assert(rest.skip(3) =~= data@.skip(i + 3));
        assert(out@ =~= before + b64_group(a, b, c));
        assert(base64(rest) == b64_group(rest[0], rest[1], rest[2]) + base64(rest.skip(3)));
        assert(before + base64(rest) =~= out@ + base64(data@.skip(i + 3)));
        i += 3;
    }
    let ghost rest = data@.skip(i as int);
    let ghost before = out@;
    if n - i == 2 {
        let a = data[i];
        let b = data[i + 1];
        push_char(&mut out, b64_char_of(a / 4));
        push_char(&mut out, b64_char_of((a % 4) * 16 + b / 16));
        push_char(&mut out, b64_char_of((b % 16) * 4));
        push_char(&mut out, '=');
        assert(out@ =~= before + base64(rest));
    } else if n - i == 1 {
        let a = data[i];
        push_char(&mut out, b64_char_of(a / 4));
        push_char(&mut out, b64_char_of((a % 4) * 16));
        push_char(&mut out, '=');
        push_char(&mut out, '=');
        assert(out@ =~= before + base64(rest));
    } else {
        assert(out@ =~= before + base64(rest));
    }
    out
}

/// Base64 output is four characters per started group of three bytes.
pub proof fn lemma_base64_len(d: Seq<u8>)
    ensures
        base64(d).len() == 4 * ((d.len() + 2) / 3),
    decreases d.len(),
{
    if d.len() >= 3 {
        lemma_base64_len(d.skip(3));
    }
}

// ---------------------------------------------------------------------------
// Colors and escaping

fn push_hex2(s: &mut String, x: u8)
    ensures
        final(s)@ == old(s)@ + crate::guids::hex2(x),
{
    let hi = x / 16;
    let lo = x % 16;
    let c1: char = if hi < 10 { (hi + 48) as char } else { (hi + 55) as char };
    let c2: char = if lo < 10 { (lo + 48) as char } else { (lo + 55) as char };
    push_char(s, c1);
    push_char(s, c2);
    assert(final(s)@ =~= old(s)@ + crate::guids::hex2(x));
}

/// Appends the CSS text of a color.
pub fn push_color(s: &mut String, c: Color)
    ensures
        final(s)@ == old(s)@ + css_color(c),
{
    let ghost start = s@;
    push_char(s, '#');
    push_hex2(s, c.r);
    push_hex2(s, c.g);
    push_hex2(s, c.b);
    if c.a != 255 {
        push_hex2(s, c.a);
    }
    assert(s@ =~= start + css_color(c));
}

/// The `fill` attribute for an optional fill color.
pub open spec fn spec_fill_attr(fill: Option<Color>) -> Seq<char> {
    match fill {
        Some(c) => "fill=\""@ + css_color(c) + "\""@,
        None => "fill=\"none\""@,
    }
}

impl SvgContext {
    pub fn fill_attr(fill: Option<Color>) -> (s: String)
        ensures
            s@ == spec_fill_attr(fill),
    {
        let mut s = String::new();
        match fill {
            Some(c) => {
                push_str(&mut s, "fill=\"");
                push_color(&mut s, c);
                push_str(&mut s, "\"");
            },
            None => push_str(&mut s, "fill=\"none\""),
        }
        s
    }
}

/// The XML escape of one character.
pub open spec fn xml_char(c: char) -> Seq<char> {
    if c == '<' {
        "&lt;"@
    } else if c == '>' {
        "&gt;"@
    } else if c == '&' {
        "&amp;"@
    } else if c == '"' {
        "&quot;"@
    } else if c == '\'' {
        "&apos;"@
    } else {
        seq![c]
    }
}

/// Text with the five XML special characters escaped.
pub open spec fn xml_escaped(s: Seq<char>) -> Seq<char>
    decreases s.len(),
{
    if s.len() == 0 {
        seq![]
    } else {
        xml_escaped(s.drop_last()) + xml_char(s.last())
    }
}

pub fn xml_escape(s: &str) -> (r: String)
    ensures
        r@ == xml_escaped(s@),
{
    let mut out = String::new();
    for c in it: s.chars()
        invariant
            it.seq() == s@,
            out@ == xml_escaped(it.seq().take(it.index() as int)),
    {
        assert(it.seq().take(it.index() + 1).drop_last() =~= it.seq().take(it.index() as int));
        if c == '<' {
            push_str(&mut out, "&lt;");
        } else if c == '>' {
            push_str(&mut out, "&gt;");
        } else if c == '&' {
            push_str(&mut out, "&amp;");
        } else if c == '"' {
            push_str(&mut out, "&quot;");
        } else if c == '\'' {
            push_str(&mut out, "&apos;");
        } else {
            push_char(&mut out, c);
            assert(out@ =~= xml_escaped(it.seq().take(it.index() as int)) + seq![c]);
        }
    }
    assert(s@.take(s@.len() as int) =~= s@);
    out
}

/// The MIME type the magic number of an image payload announces.
pub open spec fn spec_image_mime(d: Seq<u8>) -> Seq<char> {
    if d.len() >= 8 && d.take(8) == seq![0x89u8, 0x50u8, 0x4Eu8, 0x47u8, 0x0Du8, 0x0Au8, 0x1Au8, 0x0Au8] {
        "image/png"@
    } else if d.len() >= 3 && d.take(3) == seq![0xFFu8, 0xD8u8, 0xFFu8] {
        "image/jpeg"@
    } else if d.len() >= 4 && d.take(4) == seq![0x47u8, 0x49u8, 0x46u8, 0x38u8] {
        "image/gif"@
    } else if d.len() >= 2 && d.take(2) == seq![0x42u8, 0x4Du8] {
        "image/bmp"@
    } else {
        "application/octet-stream"@
    }
}

fn bytes_start_with(d: &[u8], p: &[u8]) -> (r: bool)
    ensures
        r == (d@.len() >= p@.len() && d@.take(p@.len() as int) == p@),
{
    if d.len() < p.len() {
        return false;
    }
    let mut i: usize = 0;
    while i < p.len()
        invariant
            d@.len() >= p@.len(),
            i <= p@.len(),
            forall|k: int| 0 <= k < i ==> d@[k] == p@[k],
        decreases p@.len() - i,
    {
        if d[i] != p[i] {
            assert(d@.take(p@.len() as int)[i as int] != p@[i as int]);
            return false;
        }
        i += 1;
    }
    assert(d@.take(p@.len() as int) =~= p@);
    true
}

/// Sniff the image MIME type from a magic-number header.
pub fn guess_image_mime(data: &[u8]) -> (m: &'static str)
    ensures
        m@ == spec_image_mime(data@),
{
    let png: [u8; 8] = [0x89u8, 0x50u8, 0x4Eu8, 0x47u8, 0x0Du8, 0x0Au8, 0x1Au8, 0x0Au8];
    let jpeg: [u8; 3] = [0xFFu8, 0xD8u8, 0xFFu8];
    let gif: [u8; 4] = [0x47u8, 0x49u8, 0x46u8, 0x38u8];
    let bmp: [u8; 2] = [0x42u8, 0x4Du8];
    assert(png@ =~= seq![0x89u8, 0x50u8, 0x4Eu8, 0x47u8, 0x0Du8, 0x0Au8, 0x1Au8, 0x0Au8]);
    assert(jpeg@ =~= seq![0xFFu8, 0xD8u8, 0xFFu8]);
    assert(gif@ =~= seq![0x47u8, 0x49u8, 0x46u8, 0x38u8]);
    assert(bmp@ =~= seq![0x42u8, 0x4Du8]);
    if bytes_start_with(data, png.as_slice()) {
        "image/png"
    } else if bytes_start_with(data, jpeg.as_slice()) {
        "image/jpeg"
    } else if bytes_start_with(data, gif.as_slice()) {
        "image/gif"
    } else if bytes_start_with(data, bmp.as_slice()) {
        "image/bmp"
    } else {
        "application/octet-stream"
    }
}

// ---------------------------------------------------------------------------
// The document

/// Accumulates SVG drawing commands as a string.
pub struct SvgContext {
    body: String,
    options: RenderOptions,
    /// Stack of open-group counts at each `save_state`, so `restore_state`
    /// can close out the `<g>`s opened since.
    group_depth: Vec<usize>,
    open_groups: usize,
    /// Groups opened so far.
    opened: Ghost<nat>,
    /// Groups closed so far.
    closed: Ghost<nat>,
}

/// How many times `p` occurs in `s`, overlapping occurrences included.
pub open spec fn count_tag(s: Seq<char>, p: Seq<char>) -> nat
    decreases s.len(),
{
    if s.len() == 0 || s.len() < p.len() {
        0
    } else {
        (if s.take(p.len() as int) == p { 1nat } else { 0nat }) + count_tag(s.drop_first(), p)
    }
}

/// The start of a group: `<g ` (the writer opens every group with a
/// `transform` attribute).
pub open spec fn open_tag() -> Seq<char> {
    seq!['<', 'g', ' ']
}

/// The end of a group.
pub open spec fn close_tag() -> Seq<char> {
    seq!['<', '/', 'g', '>']
}

/// No `<` anywhere in `s`.
pub open spec fn no_lt(s: Seq<char>) -> bool {
    forall|i: int| 0 <= i < s.len() ==> #[trigger] s[i] != '<'
}

/// No `<` among the last three characters of `s`, so that no tag can run
/// on from `s` into what follows it.
pub open spec fn tail_clear(s: Seq<char>) -> bool {
    forall|i: int| 0 <= i < s.len() && s.len() - 3 <= i ==> #[trigger] s[i] != '<'
}

/// Drawing markup that opens and closes no group and ends clear of a tag.
pub open spec fn markup_safe(m: Seq<char>) -> bool {
    count_tag(m, open_tag()) == 0 && count_tag(m, close_tag()) == 0 && tail_clear(m)
}

/// A tag pattern: `<` and then no other `<`, three or four characters.
pub open spec fn tag_pattern(p: Seq<char>) -> bool {
    &&& 3 <= p.len() <= 4
    &&& p[0] == '<'
    &&& forall|i: int| 1 <= i < p.len() ==> #[trigger] p[i] != '<'
}

proof fn lemma_tags_are_patterns()
    ensures
        tag_pattern(open_tag()),
        tag_pattern(close_tag()),
{
}

proof fn lemma_count_no_lt(s: Seq<char>, p: Seq<char>)
    requires
        no_lt(s),
        tag_pattern(p),
    ensures
        count_tag(s, p) == 0,
    decreases s.len(),
{
    if s.len() > 0 && s.len() >= p.len() {
        assert(s.take(p.len() as int)[0] == s[0]);
        assert(no_lt(s.drop_first())) by {
            assert forall|i: int| 0 <= i < s.drop_first().len() implies #[trigger] s.drop_first()[i] != '<' by {
                assert(s.drop_first()[i] == s[i + 1]);
            }
        }
        lemma_count_no_lt(s.drop_first(), p);
    }
}

/// A tag pattern occurs in `a + b` as often as in `a` and in `b`, when no
/// occurrence can start in `a` and run into `b`.
proof fn lemma_count_concat(a: Seq<char>, b: Seq<char>, p: Seq<char>)
    requires
        tail_clear(a),
        tag_pattern(p),
    ensures
        count_tag(a + b, p) == count_tag(a, p) + count_tag(b, p),
    decreases a.len(),
{
    let c = a + b;
    let l = p.len() as int;
    if a.len() == 0 {
        assert(c =~= b);
    } else {
        assert(c.drop_first() =~= a.drop_first() + b);
        assert(tail_clear(a.drop_first())) by {
            assert forall|i: int| 0 <= i < a.drop_first().len() && a.drop_first().len() - 3 <= i implies #[trigger] a.drop_first()[i] != '<' by {
                assert(a.drop_first()[i] == a[i + 1]);
            }
        }
        lemma_count_concat(a.drop_first(), b, p);
        if a.len() >= l {
            assert(c.take(l) =~= a.take(l));
        } else {
            assert(a[0] != '<');
            if c.len() >= l {
                assert(c.take(l)[0] == a[0]);
            }
            assert(count_tag(a, p) == 0);
            assert(count_tag(a.drop_first(), p) == 0);
        }
    }
}

proof fn lemma_tail_clear_concat(a: Seq<char>, b: Seq<char>)
    requires
        tail_clear(a),
        tail_clear(b),
    ensures
        tail_clear(a + b),
{
    let c = a + b;
    assert forall|i: int| 0 <= i < c.len() && c.len() - 3 <= i implies #[trigger] c[i] != '<' by {
        if i < a.len() {
            assert(c[i] == a[i]);
        } else {
            assert(c[i] == b[i - a.len()]);
        }
    }
}

proof fn lemma_no_lt_concat(a: Seq<char>, b: Seq<char>)
    requires
        no_lt(a),
        no_lt(b),
    ensures
        no_lt(a + b),
{
    assert forall|i: int| 0 <= i < (a + b).len() implies #[trigger] (a + b)[i] != '<' by {
        if i < a.len() {
            assert((a + b)[i] == a[i]);
        } else {
            assert((a + b)[i] == b[i - a.len()]);
        }
    }
}

proof fn lemma_dec_no_lt(n: nat)
    ensures
        no_lt(dec(n)),
{
    crate::binary::lemma_dec_chars(n);
}

proof fn lemma_css_no_lt(c: Color)
    ensures
        no_lt(css_color(c)),
{
    let s = css_color(c);
    assert forall|i: int| 0 <= i < s.len() implies #[trigger] s[i] != '<' by {
        assert(s[i] == '#' || s[i] == crate::guids::hex_digit(c.r as int / 16) || s[i] == crate::guids::hex_digit(c.r as int % 16)
            || s[i] == crate::guids::hex_digit(c.g as int / 16) || s[i] == crate::guids::hex_digit(c.g as int % 16)
            || s[i] == crate::guids::hex_digit(c.b as int / 16) || s[i] == crate::guids::hex_digit(c.b as int % 16)
            || s[i] == crate::guids::hex_digit(c.a as int / 16) || s[i] == crate::guids::hex_digit(c.a as int % 16));
    }
}

/// The open and close tags in the piece `open_group` appends.
proof fn lemma_open_piece(t: Seq<char>)
    requires
        no_lt(t),
    ensures
        count_tag("<g transform=\""@ + t + "\">"@, open_tag()) == 1,
        count_tag("<g transform=\""@ + t + "\">"@, close_tag()) == 0,
        tail_clear("<g transform=\""@ + t + "\">"@),
{
    reveal_strlit("<g transform=\"");
    reveal_strlit("\">");
    let s = "<g transform=\""@ + t + "\">"@;
    let rest = s.drop_first();
    assert(no_lt(rest)) by {
        assert forall|i: int| 0 <= i < rest.len() implies #[trigger] rest[i] != '<' by {
            assert(rest[i] == s[i + 1]);
            if i + 1 >= 14 && i + 1 < 14 + t.len() {
                assert(s[i + 1] == t[i + 1 - 14]);
            }
        }
    }
    lemma_count_no_lt(rest, open_tag());
    lemma_count_no_lt(rest, close_tag());
    assert(s.take(3) =~= open_tag());
    assert(s.take(4)[1] == 'g');
    assert(s.take(4) != close_tag());
    assert forall|i: int| 0 <= i < s.len() && s.len() - 3 <= i implies #[trigger] s[i] != '<' by {
        assert(s[i] == rest[i - 1]);
    }
}

proof fn lemma_closing_counts(n: nat)
    ensures
        count_tag(closing_groups(n), open_tag()) == 0,
        count_tag(closing_groups(n), close_tag()) == n,
        tail_clear(closing_groups(n)),
    decreases n,
{
    reveal_strlit("</g>");
    if n > 0 {
        let a = closing_groups((n - 1) as nat);
        let g = "</g>"@;
        lemma_closing_counts((n - 1) as nat);
        lemma_tags_are_patterns();
        lemma_count_concat(a, g, open_tag());
        lemma_count_concat(a, g, close_tag());
        assert(g.take(4) =~= close_tag());
        assert(g.drop_first().len() == 3);
        assert(no_lt(g.drop_first()));
        lemma_count_no_lt(g.drop_first(), open_tag());
        lemma_count_no_lt(g.drop_first(), close_tag());
        assert(g.take(3) != open_tag()) by {
            assert(g.take(3)[1] == '/');
        }
        assert(count_tag(g, close_tag()) == 1);
        assert(count_tag(g, open_tag()) == 0);
        assert(tail_clear(g));
        lemma_tail_clear_concat(a, g);
    }
}

proof fn lemma_literals_no_lt()
    ensures
        no_lt("svg xmlns=\"http://www.w3.org/2000/svg\" width=\""@),
        no_lt("\" height=\""@),
        no_lt("\" viewBox=\"0 0 "@),
        no_lt(" "@),
        no_lt("\">"@),
        no_lt("rect width=\""@),
        no_lt("\" fill=\""@),
        no_lt("\"/>"@),
        no_lt("/svg>"@),
{
    reveal_strlit("svg xmlns=\"http://www.w3.org/2000/svg\" width=\"");
    reveal_strlit("\" height=\"");
    reveal_strlit("\" viewBox=\"0 0 ");
    reveal_strlit(" ");
    reveal_strlit("\">");
    reveal_strlit("rect width=\"");
    reveal_strlit("\" fill=\"");
    reveal_strlit("\"/>");
    reveal_strlit("/svg>");
}

/// The header holds no group tag and ends clear of a tag.
proof fn lemma_header_counts(o: RenderOptions)
    ensures
        count_tag(svg_header(o), open_tag()) == 0,
        count_tag(svg_header(o), close_tag()) == 0,
        tail_clear(svg_header(o)),
{
    reveal_strlit("<svg xmlns=\"http://www.w3.org/2000/svg\" width=\"");
    reveal_strlit("svg xmlns=\"http://www.w3.org/2000/svg\" width=\"");
    reveal_strlit("<rect width=\"");
    reveal_strlit("rect width=\"");
    lemma_literals_no_lt();
    lemma_tags_are_patterns();
    let w = dec(o.width as nat);
    let h = dec(o.height as nat);
    lemma_dec_no_lt(o.width as nat);
    lemma_dec_no_lt(o.height as nat);
    let l1 = "svg xmlns=\"http://www.w3.org/2000/svg\" width=\""@;
    assert("<svg xmlns=\"http://www.w3.org/2000/svg\" width=\""@ =~= seq!['<'] + l1);
    let b = l1 + w + "\" height=\""@ + h + "\" viewBox=\"0 0 "@ + w + " "@ + h + "\">"@;
    lemma_no_lt_concat(l1, w);
    lemma_no_lt_concat(l1 + w, "\" height=\""@);
    lemma_no_lt_concat(l1 + w + "\" height=\""@, h);
    lemma_no_lt_concat(l1 + w + "\" height=\""@ + h, "\" viewBox=\"0 0 "@);
    lemma_no_lt_concat(l1 + w + "\" height=\""@ + h + "\" viewBox=\"0 0 "@, w);
    lemma_no_lt_concat(l1 + w + "\" height=\""@ + h + "\" viewBox=\"0 0 "@ + w, " "@);
    lemma_no_lt_concat(l1 + w + "\" height=\""@ + h + "\" viewBox=\"0 0 "@ + w + " "@, h);
    lemma_no_lt_concat(l1 + w + "\" height=\""@ + h + "\" viewBox=\"0 0 "@ + w + " "@ + h, "\">"@);
    let r: Seq<char> = match o.background {
        Some(bg) => "<rect width=\""@ + w + "\" height=\""@ + h + "\" fill=\""@ + css_color(bg) + "\"/>"@,
        None => Seq::<char>::empty(),
    };
    let s = svg_header(o);
    assert(s =~= seq!['<'] + (b + r));
    assert(tail_clear(b));
    lemma_count_concat(b, r, open_tag());
    lemma_count_concat(b, r, close_tag());
    lemma_count_no_lt(b, open_tag());
    lemma_count_no_lt(b, close_tag());
    if let Some(bg) = o.background {
        let r1 = "rect width=\""@ + w + "\" height=\""@ + h + "\" fill=\""@ + css_color(bg) + "\"/>"@;
        assert("<rect width=\""@ =~= seq!['<'] + "rect width=\""@);
        assert(r =~= seq!['<'] + r1);
        lemma_css_no_lt(bg);
        lemma_no_lt_concat("rect width=\""@, w);
        lemma_no_lt_concat("rect width=\""@ + w, "\" height=\""@);
        lemma_no_lt_concat("rect width=\""@ + w + "\" height=\""@, h);
        lemma_no_lt_concat("rect width=\""@ + w + "\" height=\""@ + h, "\" fill=\""@);
        lemma_no_lt_concat("rect width=\""@ + w + "\" height=\""@ + h + "\" fill=\""@, css_color(bg));
        lemma_no_lt_concat("rect width=\""@ + w + "\" height=\""@ + h + "\" fill=\""@ + css_color(bg), "\"/>"@);
        assert(r.drop_first() =~= r1);
        lemma_count_no_lt(r1, open_tag());
        lemma_count_no_lt(r1, close_tag());
        assert(r.take(3)[1] == 'r');
        assert(r.take(3) != open_tag());
        assert(r.take(4)[1] == 'r');
        assert(r.take(4) != close_tag());
        assert(tail_clear(r)) by {
            assert forall|i: int| 0 <= i < r.len() && r.len() - 3 <= i implies #[trigger] r[i] != '<' by {
                assert(r[i] == r1[i - 1]);
            }
        }
    } else {
        assert(count_tag(r, open_tag()) == 0);
        assert(count_tag(r, close_tag()) == 0);
    }
    lemma_tail_clear_concat(b, r);
    let rest = b + r;
    assert(s.drop_first() =~= rest);
    assert(s.take(3)[1] == 's');
    assert(s.take(3) != open_tag());
    assert(s.take(4)[1] == 's');
    assert(s.take(4) != close_tag());
    assert(tail_clear(s)) by {
        assert forall|i: int| 0 <= i < s.len() && s.len() - 3 <= i implies #[trigger] s[i] != '<' by {
            assert(s[i] == rest[i - 1]);
        }
    }
}

/// The closing tag of the document holds no group tag.
proof fn lemma_svg_end_counts()
    ensures
        count_tag("</svg>"@, open_tag()) == 0,
        count_tag("</svg>"@, close_tag()) == 0,
{
    reveal_strlit("</svg>");
    reveal_strlit("/svg>");
    lemma_literals_no_lt();
    let s = "</svg>"@;
    assert(s.drop_first() =~= "/svg>"@);
    lemma_count_no_lt("/svg>"@, open_tag());
    lemma_count_no_lt("/svg>"@, close_tag());
    assert(s.take(3)[2] == 's');
    assert(s.take(3) != open_tag());
    assert(s.take(4)[2] == 's');
    assert(s.take(4) != close_tag());
}

/// Appending a piece that ends clear of a tag to text that does adds the
/// piece's tags.
proof fn lemma_append_counts(a: Seq<char>, b: Seq<char>)
    requires
        tail_clear(a),
        tail_clear(b),
    ensures
        count_tag(a + b, open_tag()) == count_tag(a, open_tag()) + count_tag(b, open_tag()),
        count_tag(a + b, close_tag()) == count_tag(a, close_tag()) + count_tag(b, close_tag()),
        tail_clear(a + b),
{
    lemma_tags_are_patterns();
    lemma_count_concat(a, b, open_tag());
    lemma_count_concat(a, b, close_tag());
    lemma_tail_clear_concat(a, b);
}

/// `</g>` repeated `n` times.
pub open spec fn closing_groups(n: nat) -> Seq<char>
    decreases n,
{
    if n == 0 {
        seq![]
    } else {
        closing_groups((n - 1) as nat) + "</g>"@
    }
}

/// The opening `<svg>` tag and the optional background rectangle.
pub open spec fn svg_header(o: RenderOptions) -> Seq<char> {
    let w = dec(o.width as nat);
    let h = dec(o.height as nat);
    "<svg xmlns=\"http://www.w3.org/2000/svg\" width=\""@ + w + "\" height=\""@ + h
        + "\" viewBox=\"0 0 "@ + w + " "@ + h + "\">"@ + match o.background {
        Some(bg) => "<rect width=\""@ + w + "\" height=\""@ + h + "\" fill=\""@ + css_color(bg)
            + "\"/>"@,
        None => Seq::<char>::empty(),
    }
}

impl SvgContext {
    /// The markup drawn so far.
    pub closed spec fn body(&self) -> Seq<char> {
        self.body@
    }

    pub closed spec fn options(&self) -> RenderOptions {
        self.options
    }

    /// Groups opened and not yet closed.
    pub closed spec fn open_groups(&self) -> nat {
        self.open_groups as nat
    }

    /// The drawing's text holds one `<g ` for each group opened and one
    /// `</g>` for each group closed so far, and ends clear of a tag.
    pub open spec fn groups_in_text(&self) -> bool {
        &&& count_tag(self.body(), open_tag()) == self.groups_opened()
        &&& count_tag(self.body(), close_tag()) == self.groups_closed()
        &&& tail_clear(self.body())
    }

    /// Groups opened by `open_group` so far.
    pub closed spec fn groups_opened(&self) -> nat {
        self.opened@
    }

    /// Closing tags written by `restore_state` so far.
    pub closed spec fn groups_closed(&self) -> nat {
        self.closed@
    }

    /// Open-group counts recorded by `save_state`, innermost last.
    pub closed spec fn saved(&self) -> Seq<usize> {
        self.group_depth@
    }

    /// Saved counts never decrease from the outermost to the innermost, and
    /// none exceeds the groups now open; the groups opened are those closed
    /// and those still open.
    pub closed spec fn wf(&self) -> bool {
        &&& self.opened@ == self.closed@ + self.open_groups
        &&& forall|i: int| 0 <= i < self.group_depth@.len() ==> #[trigger] self.group_depth@[i] <= self.open_groups
        &&& forall|i: int, j: int| 0 <= i <= j < self.group_depth@.len() ==> self.group_depth@[i] <= self.group_depth@[j]
    }

    pub fn new(options: RenderOptions) -> (s: Self)
        ensures
            s.wf(),
            s.body() == Seq::<char>::empty(),
            s.options() == options,
            s.open_groups() == 0,
            s.saved() == Seq::<usize>::empty(),
            s.groups_opened() == 0,
            s.groups_in_text(),
    {
        SvgContext {
            body: String::new(),
            options,
            group_depth: Vec::new(),
            open_groups: 0,
            opened: Ghost(0),
            closed: Ghost(0),
        }
    }

    /// Appends drawing markup.
    pub fn push_markup(&mut self, markup: &str)
        ensures
            final(self).body() == old(self).body() + markup@,
            final(self).options() == old(self).options(),
            final(self).open_groups() == old(self).open_groups(),
            final(self).saved() == old(self).saved(),
            final(self).groups_opened() == old(self).groups_opened(),
            final(self).groups_closed() == old(self).groups_closed(),
            old(self).wf() ==> final(self).wf(),
            old(self).groups_in_text() && markup_safe(markup@) ==> final(self).groups_in_text(),
    {
        push_str(&mut self.body, markup);
        proof {
            if old(self).groups_in_text() && markup_safe(markup@) {
                lemma_append_counts(old(self).body@, markup@);
            }
        }
    }

    /// Opens a `<g transform="...">` group.
    pub fn open_group(&mut self, transform: &str)
        requires
            old(self).open_groups() < usize::MAX,
        ensures
            final(self).body() == old(self).body() + "<g transform=\""@ + transform@ + "\">"@,
            final(self).options() == old(self).options(),
            final(self).open_groups() == old(self).open_groups() + 1,
            final(self).saved() == old(self).saved(),
            final(self).groups_opened() == old(self).groups_opened() + 1,
            final(self).groups_closed() == old(self).groups_closed(),
            old(self).wf() ==> final(self).wf(),
            old(self).groups_in_text() && no_lt(transform@) ==> final(self).groups_in_text(),
    {
        push_str(&mut self.body, "<g transform=\"");
        push_str(&mut self.body, transform);
        push_str(&mut self.body, "\">");
        self.open_groups = self.open_groups + 1;
        self.opened = Ghost(self.opened@ + 1);
        proof {
            let piece = "<g transform=\""@ + transform@ + "\">"@;
            assert(self.body@ =~= old(self).body@ + piece);
            if old(self).groups_in_text() && no_lt(transform@) {
                lemma_open_piece(transform@);
                lemma_append_counts(old(self).body@, piece);
            }
        }
    }

    /// Remembers how many groups are open.
    pub fn save_state(&mut self)
        ensures
            final(self).body() == old(self).body(),
            final(self).options() == old(self).options(),
            final(self).open_groups() == old(self).open_groups(),
            final(self).saved() == old(self).saved().push(old(self).open_groups() as usize),
            final(self).groups_opened() == old(self).groups_opened(),
            final(self).groups_closed() == old(self).groups_closed(),
            old(self).wf() ==> final(self).wf(),
            old(self).groups_in_text() ==> final(self).groups_in_text(),
    {
        self.group_depth.push(self.open_groups);
    }

    /// Closes the groups opened since the matching `save_state`.
    pub fn restore_state(&mut self)
        requires
            old(self).wf(),
        ensures
            final(self).wf(),
            final(self).options() == old(self).options(),
            old(self).groups_in_text() ==> final(self).groups_in_text(),
            final(self).groups_opened() == old(self).groups_opened(),
            final(self).groups_closed() + final(self).open_groups() == old(self).groups_closed()
                + old(self).open_groups(),
            old(self).saved().len() == 0 ==> final(self).body() == old(self).body(),
            old(self).saved().len() == 0 ==> final(self).open_groups() == old(self).open_groups(),
            old(self).saved().len() == 0 ==> final(self).saved() == old(self).saved(),
            old(self).saved().len() > 0 ==> {
                let target = old(self).saved().last();
                &&& final(self).open_groups() == target
                &&& final(self).saved() == old(self).saved().drop_last()
                &&& final(self).body() == old(self).body() + closing_groups(
                    (old(self).open_groups() - target) as nat,
                )
            },
    {
        let ghost d0 = self.group_depth@;
        if let Some(target) = self.group_depth.pop() {
            let ghost start = self.body@;
            let ghost open0 = self.open_groups;
            let ghost opts = self.options;
            assert(target == d0.last());
            assert forall|i: int| 0 <= i < self.group_depth@.len() implies #[trigger] self.group_depth@[i] <= target by {
                assert(self.group_depth@[i] == d0[i]);
                assert(d0[i] <= d0[d0.len() - 1]);
            }
            while self.open_groups > target
                invariant
                    target <= self.open_groups <= open0,
                    self.body@ == start + closing_groups((open0 - self.open_groups) as nat),
                    forall|i: int| 0 <= i < self.group_depth@.len() ==> #[trigger] self.group_depth@[i] <= target,
                    forall|i: int, j: int| 0 <= i <= j < self.group_depth@.len() ==> self.group_depth@[i] <= self.group_depth@[j],
                    self.options == opts,
                    self.group_depth@ == d0.drop_last(),
                    self.opened@ == self.closed@ + self.open_groups,
                    self.opened@ == old(self).opened@,
                decreases self.open_groups,
            {
                push_str(&mut self.body, "</g>");
                self.open_groups -= 1;
                self.closed = Ghost(self.closed@ + 1);
                assert(self.body@ =~= start + closing_groups((open0 - self.open_groups) as nat));
            }
            proof {
                if old(self).groups_in_text() {
                    let k = (open0 - self.open_groups) as nat;
                    lemma_closing_counts(k);
                    lemma_append_counts(start, closing_groups(k));
                }
            }
        }
    }

    /// The finished document: header, background, the drawing with every
    /// open group closed, and the closing tag.
    pub fn finish(self) -> (out: String)
        ensures
            out@ == svg_header(self.options()) + self.body() + closing_groups(self.open_groups())
                + "</svg>"@,
            self.wf() && self.groups_in_text() ==> count_tag(out@, open_tag()) == self.groups_opened()
                && count_tag(out@, close_tag()) == self.groups_opened(),
    {
        let mut body = self.body;
        let mut open = self.open_groups;
        let ghost start = body@;
        while open > 0
            invariant
                open <= self.open_groups,
                body@ + closing_groups(open as nat) == start + closing_groups(self.open_groups as nat),
            decreases open,
        {
            let ghost b0 = body@;
            push_str(&mut body, "</g>");
            proof {
                lemma_closing_groups_front((open - 1) as nat);
                assert(b0 + closing_groups(open as nat) =~= body@ + closing_groups((open - 1) as nat));
            }
            open -= 1;
        }
        let o = self.options;
        let mut out = String::new();
        push_str(&mut out, "<svg xmlns=\"http://www.w3.org/2000/svg\" width=\"");
        crate::text::push_dec(&mut out, o.width as u64);
        push_str(&mut out, "\" height=\"");
        crate::text::push_dec(&mut out, o.height as u64);
        push_str(&mut out, "\" viewBox=\"0 0 ");
        crate::text::push_dec(&mut out, o.width as u64);
        push_str(&mut out, " ");
        crate::text::push_dec(&mut out, o.height as u64);
        push_str(&mut out, "\">");
        if let Some(bg) = o.background {
            push_str(&mut out, "<rect width=\"");
            crate::text::push_dec(&mut out, o.width as u64);
            push_str(&mut out, "\" height=\"");
            crate::text::push_dec(&mut out, o.height as u64);
            push_str(&mut out, "\" fill=\"");
            push_color(&mut out, bg);
            push_str(&mut out, "\"/>");
        }
        let ghost head = out@;
        assert(head =~= svg_header(o));
        push_str(&mut out, body.as_str());
        push_str(&mut out, "</svg>");
        assert(body@ + closing_groups(0) =~= body@);
        assert(out@ =~= svg_header(self.options()) + self.body() + closing_groups(self.open_groups())
            + "</svg>"@);
        proof {
            if self.wf() && self.groups_in_text() {
                let h = svg_header(self.options());
                let c = closing_groups(self.open_groups());
                lemma_header_counts(self.options());
                lemma_closing_counts(self.open_groups());
                lemma_svg_end_counts();
                lemma_append_counts(h, self.body());
                lemma_append_counts(h + self.body(), c);
                lemma_tags_are_patterns();
                lemma_count_concat(h + self.body() + c, "</svg>"@, open_tag());
                lemma_count_concat(h + self.body() + c, "</svg>"@, close_tag());
            }
        }
        out
    }
}

/// Every group opened on a context is closed when it is finished: the groups
/// `restore_state` closed and the closing tags `finish` appends for those
/// still open make up all the groups `open_group` opened.
pub proof fn lemma_every_group_closed(ctx: SvgContext)
    requires
        ctx.wf(),
    ensures
        ctx.groups_closed() + ctx.open_groups() == ctx.groups_opened(),
{
}

pub proof fn lemma_closing_groups_front(n: nat)
    ensures
        closing_groups(n + 1) == "</g>"@ + closing_groups(n),
    decreases n,
{
    if n > 0 {
        lemma_closing_groups_front((n - 1) as nat);
        assert(closing_groups(n + 1) == closing_groups(n) + "</g>"@);
        assert(closing_groups(n) == closing_groups((n - 1) as nat) + "</g>"@);
        assert("</g>"@ + closing_groups((n - 1) as nat) + "</g>"@ =~= "</g>"@ + (closing_groups(
            (n - 1) as nat,
        ) + "</g>"@));
    } else {
        assert(closing_groups(0) =~= Seq::<char>::empty());
        assert(closing_groups(1) =~= closing_groups(0) + "</g>"@);
        assert(closing_groups(1) =~= "</g>"@ + closing_groups(0));
    }
}


/// Horizontal anchor of a text draw call.
#[derive(Debug, Clone, Copy, PartialEq, Eq, Structural)]
pub enum TextAnchorH {
    Left,
    Center,
    Right,
}

impl Default for TextAnchorH {
    fn default() -> (a: TextAnchorH)
        ensures
            a == TextAnchorH::Left,
    {
        TextAnchorH::Left
    }
}

/// Vertical anchor of a text draw call.
#[derive(Debug, Clone, Copy, PartialEq, Eq, Structural)]
pub enum TextAnchorV {
    Top,
    Middle,
    Baseline,
    Bottom,
}

impl Default for TextAnchorV {
    fn default() -> (a: TextAnchorV)
        ensures
            a == TextAnchorV::Baseline,
    {
        TextAnchorV::Baseline
    }
}

/// The SVG `text-anchor` of a horizontal anchor.
pub open spec fn spec_text_anchor(h: TextAnchorH) -> Seq<char> {
    match h {
        TextAnchorH::Left => "start"@,
        TextAnchorH::Center => "middle"@,
        TextAnchorH::Right => "end"@,
    }
}

/// The SVG `text-anchor` of a horizontal anchor.
pub fn text_anchor(h: TextAnchorH) -> (s: &'static str)
    ensures
        s@ == spec_text_anchor(h),
{
    match h {
        TextAnchorH::Left => "start",
        TextAnchorH::Center => "middle",
        TextAnchorH::Right => "end",
    }
}

/// The SVG `dominant-baseline` of a vertical anchor.
pub open spec fn spec_dominant_baseline(v: TextAnchorV) -> Seq<char> {
    match v {
        TextAnchorV::Top => "text-before-edge"@,
        TextAnchorV::Middle => "central"@,
        TextAnchorV::Baseline => "alphabetic"@,
        TextAnchorV::Bottom => "text-after-edge"@,
    }
}

/// The SVG `dominant-baseline` of a vertical anchor.
pub fn dominant_baseline(v: TextAnchorV) -> (s: &'static str)
    ensures
        s@ == spec_dominant_baseline(v),
{
    match v {
        TextAnchorV::Top => "text-before-edge",
        TextAnchorV::Middle => "central",
        TextAnchorV::Baseline => "alphabetic",
        TextAnchorV::Bottom => "text-after-edge",
    }
}

} // verus!
