//! Choosing the character encoding of a response body and decoding it.
//!
//! The encoding is taken from a byte order mark, else from the `charset`
//! parameter of the content type, else (for HTML) from a `charset=` found in
//! the first 4096 bytes, else UTF-8. The decoders are `encoding_rs`'s.
use vstd::prelude::*;

use crate::text::{
    all_ascii, ascii_lower, chars_of, find_chars, find_seq, has_prefix, is_ascii_alnum,
    spec_is_alphanumeric, spec_to_lowercase, spec_utf8_lossy, split_chars, split_on,
    starts_with_chars, string_from_chars, strip_char, strip_char_chars, trim, trim_chars,
};

verus! {

/// How many leading bytes are searched for an in-document `charset=`.
pub const SNIFF_LIMIT: usize = 4096;

/// Names the text that `encoding_rs::Encoding::for_label(label)` followed by
/// `decode_with_bom_removal(bytes)` gives; `None` when the label is unknown.
pub uninterp spec fn spec_decode_with_label(label: Seq<char>, bytes: Seq<u8>) -> Option<Seq<char>>;

/// The encoding (by its name) and length of a byte order mark at the start of
/// `bytes`, as `encoding_rs::Encoding::for_bom` detects it.
pub open spec fn bom_spec(bytes: Seq<u8>) -> Option<(Seq<char>, usize)> {
    if bytes.len() >= 3 && bytes[0] == 0xEF && bytes[1] == 0xBB && bytes[2] == 0xBF {
        Some(("UTF-8"@, 3))
    } else if bytes.len() >= 2 && bytes[0] == 0xFF && bytes[1] == 0xFE {
        Some(("UTF-16LE"@, 2))
    } else if bytes.len() >= 2 && bytes[0] == 0xFE && bytes[1] == 0xFF {
        Some(("UTF-16BE"@, 2))
    } else {
        None
    }
}

/// `encoding_rs::Encoding::for_bom`, giving the encoding's name: UTF-8 for
/// `EF BB BF`, UTF-16LE for `FF FE`, UTF-16BE for `FE FF`, as its source
/// shows.
#[verifier::external_body]
fn detect_bom(bytes: &[u8]) -> (r: Option<(String, usize)>)
    ensures
        match (r, bom_spec(bytes@)) {
            (Some((n, l)), Some((sn, sl))) => n@ == sn && l == sl,
            (None, None) => true,
            _ => false,
        },
{
    match encoding_rs::Encoding::for_bom(bytes) {
        Some((enc, len)) => Some((enc.name().to_string(), len)),
        None => None,
    }
}

/// `encoding_rs::Encoding::for_label(label)`, then `decode_with_bom_removal`
/// of `bytes` with the encoding found (malformed input becomes U+FFFD). The
/// text is named by `spec_decode_with_label`; the names of the three
/// encodings a byte order mark can select are labels. Decoding panics only
/// when the output size computation overflows, which the length bound rules
/// out.
#[verifier::external_body]
fn decode_with_label(label: &str, bytes: &[u8]) -> (r: Option<String>)
    requires
        bytes@.len() <= usize::MAX / 4,
    ensures
        r.deep_view() == spec_decode_with_label(label@, bytes@),
        label@ == "UTF-8"@ || label@ == "UTF-16LE"@ || label@ == "UTF-16BE"@ ==> r is Some,
{
    match encoding_rs::Encoding::for_label(label.as_bytes()) {
        Some(enc) => Some(enc.decode_with_bom_removal(bytes).0.into_owned()),
        None => None,
    }
}

// ---------------------------------------------------------------------------
// The charset parameter of a content type.
// ---------------------------------------------------------------------------

/// The value of the first `charset=` parameter among `parts`: the part
/// trimmed, the prefix removed, trimmed again and stripped of quotes.
pub open spec fn charset_in(parts: Seq<Seq<char>>) -> Option<Seq<char>>
    decreases parts.len(),
{
    if parts.len() == 0 {
        None
    } else if has_prefix(trim(parts[0]), "charset="@) {
        Some(strip_char(trim(trim(parts[0]).skip(8)), '"'))
    } else {
        charset_in(parts.drop_first())
    }
}

/// The `charset` parameter of a content type: the parameters are the pieces
/// after the first `;`.
pub open spec fn content_type_charset_spec(ct: Seq<char>) -> Option<Seq<char>> {
    charset_in(split_on(ct, ';').drop_first())
}

/// The `charset` parameter of a content type, if any.
pub fn content_type_charset(ct: &str) -> (r: Option<String>)
    ensures
        r.deep_view() == content_type_charset_spec(ct@),
{
    let cs = chars_of(ct);
    let parts = split_chars(cs.as_slice(), ';');
    let ghost pv = split_on(ct@, ';');
    let prefix: Vec<char> = vec!['c', 'h', 'a', 'r', 's', 'e', 't', '='];
    proof {
        reveal_strlit("charset=");
        assert(prefix@ =~= "charset="@);
    }
    let mut i: usize = 1;
    assert(pv.len() >= 1) by {
        reveal_with_fuel(split_on, 1);
    }
    assert(pv.drop_first().skip(0) =~= pv.drop_first());
    while i < parts.len()
        invariant
            pv == split_on(ct@, ';'),
            prefix@ == "charset="@,
            prefix@.len() == 8,
            parts@.len() == pv.len(),
            forall|k: int| 0 <= k < parts@.len() ==> #[trigger] parts@[k]@ == pv[k],
            1 <= i <= pv.len(),
            charset_in(pv.drop_first()) == charset_in(pv.drop_first().skip(i - 1)),
        decreases parts.len() - i,
    {
        let ghost rest = pv.drop_first().skip(i - 1);
        assert(rest[0] == pv[i as int]);
        assert(rest.drop_first() =~= pv.drop_first().skip(i as int));
        assert(parts@[i as int]@ == pv[i as int]);
        let t = trim_chars(parts[i].as_slice());
        if starts_with_chars(t.as_slice(), prefix.as_slice()) {
            assert(prefix@.len() == 8);
            let after = crate::text::slice_range(t.as_slice(), 8, t.len());
            assert(after@ =~= t@.skip(8));
            let v = trim_chars(after.as_slice());
            let w = strip_char_chars(v.as_slice(), '"');
            return Some(string_from_chars(w.as_slice()));
        }
        i = i + 1;
    }
    assert(pv.drop_first().skip(i - 1).len() == 0);
    None
}

// ---------------------------------------------------------------------------
// An in-document charset declaration.
// ---------------------------------------------------------------------------

/// A character that may occur in an encoding label read from a document.
pub open spec fn label_char(c: char) -> bool {
    spec_is_alphanumeric(c) || c == '-' || c == '_'
}

/// `s` without its leading quotes (`"` or `'`).
pub open spec fn skip_quotes(s: Seq<char>) -> Seq<char>
    decreases s.len(),
{
    if s.len() > 0 && (s[0] == '"' || s[0] == '\'') {
        skip_quotes(s.drop_first())
    } else {
        s
    }
}

/// The longest prefix of `s` made of label characters.
pub open spec fn label_prefix(s: Seq<char>) -> Seq<char>
    decreases s.len(),
{
    if s.len() > 0 && label_char(s[0]) {
        seq![s[0]] + label_prefix(s.drop_first())
    } else {
        Seq::empty()
    }
}

/// Bytes in the UTF-8 encoding of a character.
pub open spec fn utf8_width(c: char) -> int {
    let u = c as u32;
    if u < 0x80 {
        1
    } else if u < 0x800 {
        2
    } else if u < 0x10000 {
        3
    } else {
        4
    }
}

/// Bytes in the UTF-8 encoding of a text.
pub open spec fn utf8_len(s: Seq<char>) -> int
    decreases s.len(),
{
    if s.len() == 0 {
        0
    } else {
        utf8_len(s.drop_last()) + utf8_width(s.last())
    }
}

/// The number of leading characters of `s` whose encoding takes exactly the
/// first `b` bytes; `None` when byte `b` falls inside a character or past the
/// end of `s` (where slicing the text at `b` panics).
pub open spec fn char_index_at_byte(s: Seq<char>, b: int) -> Option<int> {
    if exists|c: int| 0 <= c <= s.len() && #[trigger] utf8_len(s.take(c)) == b {
        Some(choose|c: int| 0 <= c <= s.len() && #[trigger] utf8_len(s.take(c)) == b)
    } else {
        None
    }
}

/// Where the label starts in `head`, given its lower-cased copy `lower`: the
/// byte position of the first `charset=` in `lower`, plus its 8 bytes, taken
/// as a byte position in `head` (both as `str::find` and slicing count bytes).
/// `None` when `lower` holds no `charset=` or the position is no character
/// boundary of `head`.
pub open spec fn label_cut(head: Seq<char>, lower: Seq<char>) -> Option<int> {
    let i = find_seq(lower, "charset="@);
    if i < 0 {
        None
    } else {
        char_index_at_byte(head, utf8_len(lower.take(i)) + 8)
    }
}

/// `lower` holds a `charset=` whose end, as a byte position, falls inside a
/// character of `head` or past its end.
pub open spec fn cut_falls_inside(head: Seq<char>, lower: Seq<char>) -> bool {
    find_seq(lower, "charset="@) >= 0 && label_cut(head, lower) is None
}

/// The label read from `head` at character `c`: past any quotes, as far as
/// label characters go; `None` when it is empty.
pub open spec fn label_after(head: Seq<char>, c: int) -> Option<Seq<char>> {
    let v = label_prefix(skip_quotes(head.skip(c)));
    if v.len() == 0 {
        None
    } else {
        Some(v)
    }
}

/// The label that a decoded document head declares, found through its
/// lower-cased copy `lower`; see `label_cut` and `label_after`.
pub open spec fn label_in(head: Seq<char>, lower: Seq<char>) -> Option<Seq<char>> {
    match label_cut(head, lower) {
        Some(c) => label_after(head, c),
        None => None,
    }
}

/// The label declared by the first `charset=` in the text of `bytes` (at
/// most its first 4096 bytes, decoded as UTF-8 with replacement): the position
/// is found in the lower-cased text and read as a byte position in the text
/// itself (see `label_in`). `None` when there is no `charset=`, the label is
/// empty, or that byte position falls inside a character of the text or past
/// its end.
pub open spec fn sniff_spec(bytes: Seq<u8>) -> Option<Seq<char>> {
    let n = if bytes.len() < SNIFF_LIMIT {
        bytes.len() as int
    } else {
        SNIFF_LIMIT as int
    };
    let head = spec_utf8_lossy(bytes.take(n));
    label_in(head, spec_to_lowercase(head))
}

proof fn lemma_skip_quotes(s: Seq<char>, i: int)
    requires
        0 <= i <= s.len(),
        forall|j: int| 0 <= j < i ==> s[j] == '"' || s[j] == '\'',
        i == s.len() || !(s[i] == '"' || s[i] == '\''),
    ensures
        skip_quotes(s) == s.skip(i),
    decreases i,
{
    if i > 0 {
        lemma_skip_quotes(s.drop_first(), i - 1);
        assert(s.drop_first().skip(i - 1) =~= s.skip(i));
    } else {
        assert(s.skip(0) =~= s);
    }
}

proof fn lemma_label_prefix(s: Seq<char>, k: int)
    requires
        0 <= k <= s.len(),
        forall|j: int| 0 <= j < k ==> label_char(s[j]),
        k == s.len() || !label_char(s[k]),
    ensures
        label_prefix(s) == s.take(k),
    decreases k,
{
    if k > 0 {
        lemma_label_prefix(s.drop_first(), k - 1);
        assert(seq![s[0]] + s.drop_first().take(k - 1) =~= s.take(k));
    } else {
        assert(s.take(0) =~= Seq::<char>::empty());
    }
}

/// The byte lengths of longer prefixes are larger.
proof fn lemma_utf8_len_prefix_grows(s: Seq<char>, x: int, y: int)
    requires
        0 <= x < y <= s.len(),
    ensures
        utf8_len(s.take(x)) < utf8_len(s.take(y)),
    decreases y - x,
{
    assert(s.take(y).drop_last() =~= s.take(y - 1));
    if x < y - 1 {
        lemma_utf8_len_prefix_grows(s, x, y - 1);
    }
}

/// Whether `c` may occur in an encoding label.
fn is_label_char(c: char) -> (r: bool)
    ensures
        r == label_char(c),
{
    crate::text::is_alphanumeric(c) || c == '-' || c == '_'
}

/// Bytes in the UTF-8 encoding of `c`.
fn utf8_width_of(c: char) -> (w: u128)
    ensures
        w == utf8_width(c),
{
    let u = c as u32;
    if u < 0x80 {
        1
    } else if u < 0x800 {
        2
    } else if u < 0x10000 {
        3
    } else {
        4
    }
}

/// Whether `lower` holds a `charset=`, and where the label starts in
/// `head`; see `label_cut`.
fn find_label_cut(head: &[char], lower: &[char]) -> (r: (bool, Option<usize>))
    ensures
        r.0 == (find_seq(lower@, "charset="@) >= 0),
        match r.1 {
            Some(c) => label_cut(head@, lower@) == Some(c as int),
            None => label_cut(head@, lower@) is None,
        },
{
    let pat: Vec<char> = vec!['c', 'h', 'a', 'r', 's', 'e', 't', '='];
    proof {
        reveal_strlit("charset=");
        assert(pat@ =~= "charset="@);
    }
    let i = match find_chars(lower, pat.as_slice()) {
        Some(i) => i,
        None => {
            return (false, None);
        },
    };
    proof {
        crate::text::lemma_find_seq(lower@, pat@);
    }
    let mut b: u128 = 8;
    let mut k: usize = 0;
    while k < i
        invariant
            i <= lower@.len(),
            k <= i,
            b == utf8_len(lower@.take(k as int)) + 8,
            b <= 4 * k + 8,
        decreases i - k,
    {
        assert(lower@.take(k + 1).drop_last() =~= lower@.take(k as int));
        b = b + utf8_width_of(lower[k]);
        k = k + 1;
    }
    let mut c: usize = 0;
    let mut acc: u128 = 0;
    assert(head@.take(0) =~= Seq::<char>::empty());
    while c < head.len() && acc < b
        invariant
            c <= head@.len(),
            acc == utf8_len(head@.take(c as int)),
            acc <= 4 * c,
            forall|x: int| 0 <= x < c ==> utf8_len(head@.take(x)) < b,
        decreases head.len() - c,
    {
        assert(head@.take(c + 1).drop_last() =~= head@.take(c as int));
        acc = acc + utf8_width_of(head[c]);
        c = c + 1;
    }
    let ghost target = utf8_len(lower@.take(i as int)) + 8;
    assert(b == target);
    if acc == b {
        proof {
            assert(utf8_len(head@.take(c as int)) == target);
            let d = choose|d: int| 0 <= d <= head@.len() && #[trigger] utf8_len(head@.take(d)) == target;
            if d < c {
                assert(utf8_len(head@.take(d)) < b);
            } else if d > c {
                lemma_utf8_len_prefix_grows(head@, c as int, d);
            }
        }
        (true, Some(c))
    } else {
        proof {
            assert forall|d: int| 0 <= d <= head@.len() implies #[trigger] utf8_len(head@.take(d)) != target by {
                if d < c {
                } else if d > c {
                    lemma_utf8_len_prefix_grows(head@, c as int, d);
                } else {
                }
            }
        }
        (true, None)
    }
}

/// The label read from `head` at character `c`; see `label_after`.
fn label_at(head: &[char], c: usize) -> (r: Option<String>)
    requires
        c <= head@.len(),
    ensures
        r.deep_view() == label_after(head@, c as int),
{
    let ghost tail = head@.skip(c as int);
    let mut a: usize = c;
    while a < head.len() && (head[a] == '"' || head[a] == '\'')
        invariant
            c <= a <= head@.len(),
            forall|j: int| c <= j < a ==> head@[j] == '"' || head@[j] == '\'',
        decreases head.len() - a,
    {
        a = a + 1;
    }
    proof {
        lemma_skip_quotes(tail, a - c);
    }
    let ghost rest = head@.skip(a as int);
    assert(tail.skip(a - c) =~= rest);
    let mut b: usize = a;
    while b < head.len() && is_label_char(head[b])
        invariant
            a <= b <= head@.len(),
            forall|j: int| a <= j < b ==> label_char(head@[j]),
        decreases head.len() - b,
    {
        b = b + 1;
    }
    proof {
        lemma_label_prefix(rest, b - a);
        assert(rest.take(b - a) =~= head@.subrange(a as int, b as int));
    }
    if b == a {
        return None;
    }
    let v = crate::text::slice_range(head, a, b);
    Some(string_from_chars(v.as_slice()))
}

/// The label that a decoded document head declares, given the head and its
/// lower-cased copy: the first `charset=` is found in `lower`, and its end, as
/// a byte position, is where the label starts in `head`. `requires` leaves out
/// the texts where that position falls inside a character of `head` or past
/// its end (slicing there panics).
pub fn charset_label(head: &str, lower: &str) -> (r: Option<String>)
    requires
        !cut_falls_inside(head@, lower@),
    ensures
        r.deep_view() == label_in(head@, lower@),
{
    let hc = chars_of(head);
    let lc = chars_of(lower);
    let (_, cut) = find_label_cut(hc.as_slice(), lc.as_slice());
    match cut {
        Some(c) => label_at(hc.as_slice(), c),
        None => None,
    }
}

/// The label that a `charset=` in the first 4096 bytes of `bytes` declares;
/// see `sniff_spec`. Where the end of `charset=` in the lower-cased text falls
/// inside a character of the text or past its end, no label is read.
pub fn sniff_meta_charset(bytes: &[u8]) -> (r: Option<String>)
    ensures
        r.deep_view() == sniff_spec(bytes@),
{
    let n = if bytes.len() < SNIFF_LIMIT {
        bytes.len()
    } else {
        SNIFF_LIMIT
    };
    let mut head_bytes: Vec<u8> = Vec::new();
    let mut k: usize = 0;
    while k < n
        invariant
            n <= bytes@.len(),
            k <= n,
            head_bytes@ =~= bytes@.take(k as int),
        decreases n - k,
    {
        head_bytes.push(bytes[k]);
        k = k + 1;
    }
    let head = crate::text::utf8_lossy(head_bytes.as_slice());
    let lower = crate::text::to_lowercase(head.as_str());
    let hc = chars_of(head.as_str());
    let lc = chars_of(lower.as_str());
    let (found, cut) = find_label_cut(hc.as_slice(), lc.as_slice());
    if found && cut.is_none() {
        return None;
    }
    charset_label(head.as_str(), lower.as_str())
}

// ---------------------------------------------------------------------------
// Decoding a body.
// ---------------------------------------------------------------------------

/// The label to decode with when there is no byte order mark: the content
/// type's charset, else (when the lower-cased content type mentions `html`)
/// the in-document declaration.
pub open spec fn declared_label(bytes: Seq<u8>, content_type: Seq<char>) -> Option<Seq<char>> {
    match content_type_charset_spec(content_type) {
        Some(l) => Some(l),
        None => if crate::text::contains_seq(spec_to_lowercase(content_type), "html"@) {
            sniff_spec(bytes)
        } else {
            None
        },
    }
}

/// The text of a body: decoded with the encoding of its byte order mark if it
/// has one; else with the declared label's encoding when that label is known;
/// else as UTF-8.
pub open spec fn decode_body_spec(bytes: Seq<u8>, content_type: Seq<char>) -> Seq<char> {
    match bom_spec(bytes) {
        Some((name, _)) => spec_decode_with_label(name, bytes).unwrap(),
        None => match declared_label(bytes, content_type) {
            Some(l) => match spec_decode_with_label(l, bytes) {
                Some(t) => t,
                None => spec_decode_with_label("UTF-8"@, bytes).unwrap(),
            },
            None => spec_decode_with_label("UTF-8"@, bytes).unwrap(),
        },
    }
}

/// A byte order mark decides the encoding of a body, whatever its content
/// type declares.
pub proof fn law_bom_decides(bytes: Seq<u8>, content_type: Seq<char>, other: Seq<char>)
    requires
        bom_spec(bytes) is Some,
    ensures
        decode_body_spec(bytes, content_type) == decode_body_spec(bytes, other),
{
}

/// Without a byte order mark, a known charset in the content type decides the
/// encoding, whatever the body says of itself.
pub proof fn law_declared_charset_decides(bytes: Seq<u8>, content_type: Seq<char>, label: Seq<char>)
    requires
        bom_spec(bytes) is None,
        content_type_charset_spec(content_type) == Some(label),
        spec_decode_with_label(label, bytes) is Some,
    ensures
        decode_body_spec(bytes, content_type) == spec_decode_with_label(label, bytes).unwrap(),
{
}

/// Decodes a response body to text; see `decode_body_spec`.
pub fn decode_body(bytes: &[u8], content_type: &str) -> (r: String)
    requires
        bytes@.len() <= usize::MAX / 4,
    ensures
        r@ == decode_body_spec(bytes@, content_type@),
{
    proof {
        reveal_strlit("UTF-8");
        reveal_strlit("html");
    }
    if let Some((name, _len)) = detect_bom(bytes) {
        let t = decode_with_label(name.as_str(), bytes);
        return match t {
            Some(s) => s,
            None => String::new(),
        };
    }
    let label = match content_type_charset(content_type) {
        Some(l) => Some(l),
        None => {
            let lower = crate::text::to_lowercase(content_type);
            if crate::text::str_contains(lower.as_str(), "html") {
                sniff_meta_charset(bytes)
            } else {
                None
            }
        },
    };
    let found = match label {
        Some(l) => decode_with_label(l.as_str(), bytes),
        None => None,
    };
    match found {
        Some(s) => s,
        None => match decode_with_label("UTF-8", bytes) {
            Some(s) => s,
            None => String::new(),
        },
    }
}

} // verus!
