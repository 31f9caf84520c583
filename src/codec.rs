use vstd::prelude::*;

verus! {

/// True when `b` is an ASCII decimal digit.
pub open spec fn is_digit(b: u8) -> bool {
    48 <= b <= 57
}

/// A non-empty run of ASCII decimal digits.
pub open spec fn is_number(s: Seq<u8>) -> bool {
    s.len() > 0 && forall|i: int| 0 <= i < s.len() ==> is_digit(#[trigger] s[i])
}

/// The value of a run of ASCII decimal digits, most significant first.
pub open spec fn digits_value(s: Seq<u8>) -> nat
    decreases s.len(),
{
    if s.len() == 0 {
        0
    } else {
        digits_value(s.drop_last()) * 10 + (s.last() - 48) as nat
    }
}

/// The decimal digits of `n`, most significant first, without leading zeros.
pub open spec fn decimal(n: nat) -> Seq<u8>
    decreases n,
{
    if n < 10 {
        seq![(48 + n) as u8]
    } else {
        decimal(n / 10).push((48 + n % 10) as u8)
    }
}

/// The index of the first line terminator `\r\n` that starts at or after `i`.
pub open spec fn line_end(s: Seq<u8>, i: int) -> Option<int>
    decreases s.len() - i,
{
    if i < 0 || i + 1 >= s.len() {
        None
    } else if s[i] == 13 && s[i + 1] == 10 {
        Some(i)
    } else {
        line_end(s, i + 1)
    }
}

/// The value of `s` read as a decimal number that fits in a `usize`.
pub open spec fn small_number(s: Seq<u8>) -> Option<nat> {
    if is_number(s) && digits_value(s) <= usize::MAX {
        Some(digits_value(s))
    } else {
        None
    }
}

/// What a decoder can make of the start of a buffer.
pub enum Decoded {
    /// A whole frame, and how many bytes of the buffer it took.
    Frame(Seq<Seq<u8>>, nat),
    /// The buffer ends inside a line or a payload: more bytes are needed.
    Incomplete,
    /// The bytes cannot start a well-formed frame.
    Malformed,
}

/// Reads `remaining` bulk strings starting at `pos`, after the ones in `acc`.
pub open spec fn decode_elements(s: Seq<u8>, pos: int, remaining: nat, acc: Seq<Seq<u8>>) -> Decoded
    decreases remaining,
{
    if remaining == 0 {
        Decoded::Frame(acc, pos as nat)
    } else if pos >= s.len() {
        Decoded::Malformed
    } else if s[pos] != 36 {
        Decoded::Malformed
    } else {
        match line_end(s, pos + 1) {
            None => Decoded::Incomplete,
            Some(e) => match small_number(s.subrange(pos + 1, e)) {
                None => Decoded::Malformed,
                Some(n) => {
                    let start = e + 2;
                    if start + n + 2 > s.len() {
                        Decoded::Incomplete
                    } else if s[start + n] != 13 || s[start + n + 1] != 10 {
                        Decoded::Malformed
                    } else {
                        decode_elements(
                            s,
                            start + n + 2,
                            (remaining - 1) as nat,
                            acc.push(s.subrange(start, start + n)),
                        )
                    }
                },
            },
        }
    }
}

/// Reads one array frame of bulk strings from the start of `s`.
///
/// A buffer that ends inside the count line, a length line or a payload is
/// incomplete. A buffer that ends cleanly after fewer elements than the count
/// declares is malformed, as is a wrong marker, a count of zero, or a count or
/// length that is not a non-negative decimal number.
pub open spec fn decode_spec(s: Seq<u8>) -> Decoded {
    if s.len() == 0 {
        Decoded::Incomplete
    } else if s[0] != 42 {
        Decoded::Malformed
    } else {
        match line_end(s, 1) {
            None => Decoded::Incomplete,
            Some(e) => match small_number(s.subrange(1, e)) {
                None => Decoded::Malformed,
                Some(n) => if n == 0 {
                    Decoded::Malformed
                } else {
                    decode_elements(s, e + 2, n, Seq::empty())
                },
            },
        }
    }
}

/// The byte strings of a frame held as vectors.
pub open spec fn frame_view(f: Seq<Vec<u8>>) -> Seq<Seq<u8>> {
    f.map_values(|v: Vec<u8>| v@)
}

/// The outcome of decoding the start of a buffer.
pub enum DecodeResult {
    Frame(Vec<Vec<u8>>, usize),
    Incomplete,
    Malformed,
}

impl DecodeResult {
    pub open spec fn spec_view(&self) -> Decoded {
        match self {
            DecodeResult::Frame(f, n) => Decoded::Frame(frame_view(f@), *n as nat),
            DecodeResult::Incomplete => Decoded::Incomplete,
            DecodeResult::Malformed => Decoded::Malformed,
        }
    }
}

/// Finds the first line terminator at or after `from`.
pub fn find_line_end(buf: &[u8], from: usize) -> (r: Option<usize>)
    ensures
        match r {
            Some(e) => line_end(buf@, from as int) == Some(e as int) && from <= e && e + 2 <= buf.len(),
            None => line_end(buf@, from as int) is None,
        },
{
    let mut i: usize = from;
    while i < buf.len() && i + 1 < buf.len()
        invariant
            from <= i,
            line_end(buf@, from as int) == line_end(buf@, i as int),
        decreases buf.len() - i,
    {
        if buf[i] == 13 && buf[i + 1] == 10 {
            return Some(i);
        }
        i = i + 1;
    }
    None
}

proof fn lemma_digits_step(s: Seq<u8>, lo: int, i: int)
    requires
        0 <= lo <= i < s.len(),
    ensures
        digits_value(s.subrange(lo, i + 1)) == digits_value(s.subrange(lo, i)) * 10 + (s[i] - 48) as nat,
{
    assert(s.subrange(lo, i + 1).drop_last() =~= s.subrange(lo, i));
}

proof fn lemma_digits_grow(s: Seq<u8>, lo: int, i: int)
    requires
        0 <= lo <= i < s.len(),
        is_digit(s[i]),
    ensures
        digits_value(s.subrange(lo, i + 1)) >= digits_value(s.subrange(lo, i)),
{
    lemma_digits_step(s, lo, i);
}

proof fn lemma_digits_mono(s: Seq<u8>, lo: int, i: int, j: int)
    requires
        0 <= lo <= i <= j <= s.len(),
        forall|k: int| lo <= k < j ==> is_digit(#[trigger] s[k]),
    ensures
        digits_value(s.subrange(lo, j)) >= digits_value(s.subrange(lo, i)),
    decreases j - i,
{
    if i < j {
        lemma_digits_mono(s, lo, i, j - 1);
        lemma_digits_grow(s, lo, j - 1);
    }
}

/// Reads `buf[lo..hi]` as a decimal number no larger than `limit`.
pub fn parse_decimal(buf: &[u8], lo: usize, hi: usize, limit: u64) -> (r: Option<u64>)
    requires
        lo <= hi <= buf.len(),
    ensures
        r == (if is_number(buf@.subrange(lo as int, hi as int)) && digits_value(
            buf@.subrange(lo as int, hi as int),
        ) <= limit {
            Some(digits_value(buf@.subrange(lo as int, hi as int)) as u64)
        } else {
            None
        }),
{
    let ghost s = buf@.subrange(lo as int, hi as int);
    if lo == hi {
        return None;
    }
    let mut j: usize = lo;
    while j < hi
        invariant
            lo <= j <= hi <= buf.len(),
            s == buf@.subrange(lo as int, hi as int),
            forall|k: int| lo <= k < j ==> is_digit(#[trigger] buf@[k]),
        decreases hi - j,
    {
        if buf[j] < 48 || buf[j] > 57 {
            proof {
                assert(s[j as int - lo as int] == buf@[j as int]);
            }
            return None;
        }
        j = j + 1;
    }
    assert(is_number(s)) by {
        assert forall|k: int| 0 <= k < s.len() implies is_digit(#[trigger] s[k]) by {
            assert(s[k] == buf@[lo + k]);
        }
    }
    let mut v: u64 = 0;
    let mut i: usize = lo;
    while i < hi
        invariant
            lo <= i <= hi <= buf.len(),
            s == buf@.subrange(lo as int, hi as int),
            v as nat == digits_value(buf@.subrange(lo as int, i as int)),
            v <= limit,
            forall|k: int| lo <= k < hi ==> is_digit(#[trigger] buf@[k]),
        decreases hi - i,
    {
        let d: u64 = (buf[i] - 48) as u64;
        proof {
            lemma_digits_step(buf@, lo as int, i as int);
        }
        if d > limit || v > (limit - d) / 10 {
            proof {
                if d <= limit {
                    assert(v * 10 + d > limit) by (nonlinear_arith)
                        requires
                            v > (limit - d) / 10,
                            d <= limit,
                    ;
                }
                lemma_digits_mono(buf@, lo as int, i as int + 1, hi as int);
                assert(buf@.subrange(lo as int, hi as int) == s);
            }
            return None;
        }
        proof {
            assert(v * 10 + d <= limit) by (nonlinear_arith)
                requires
                    v <= (limit - d) / 10,
                    d <= limit,
            ;
        }
        v = v * 10 + d;
        i = i + 1;
    }
    proof {
        assert(buf@.subrange(lo as int, i as int) == s);
    }
    Some(v)
}

/// Copies `buf[lo..hi]` into a new vector.
pub fn copy_range(buf: &[u8], lo: usize, hi: usize) -> (r: Vec<u8>)
    requires
        lo <= hi <= buf.len(),
    ensures
        r@ == buf@.subrange(lo as int, hi as int),
{
    let mut r: Vec<u8> = Vec::new();
    let mut i: usize = lo;
    while i < hi
        invariant
            lo <= i <= hi <= buf.len(),
            r@ == buf@.subrange(lo as int, i as int),
        decreases hi - i,
    {
        r.push(buf[i]);
        proof {
            assert(buf@.subrange(lo as int, i + 1) == buf@.subrange(lo as int, i as int).push(buf@[i as int]));
        }
        i = i + 1;
    }
    r
}

/// Decodes one array frame of bulk strings from the start of `buf`.
pub fn decode(buf: &[u8]) -> (r: DecodeResult)
    ensures
        r.spec_view() == decode_spec(buf@),
        r matches DecodeResult::Frame(f, n) ==> 0 < f@.len() && n <= buf@.len(),
{
    let ghost s = buf@;
    if buf.len() == 0 {
        return DecodeResult::Incomplete;
    }
    if buf[0] != 42 {
        return DecodeResult::Malformed;
    }
    let e = match find_line_end(buf, 1) {
        None => return DecodeResult::Incomplete,
        Some(e) => e,
    };
    let count = match parse_decimal(buf, 1, e, usize::MAX as u64) {
        None => return DecodeResult::Malformed,
        Some(n) => n as usize,
    };
    if count == 0 {
        return DecodeResult::Malformed;
    }
    let mut items: Vec<Vec<u8>> = Vec::new();
    assert(frame_view(items@) =~= Seq::<Seq<u8>>::empty());
    let mut pos: usize = e + 2;
    let mut remaining: usize = count;
    while remaining > 0
        invariant
            s == buf@,
            pos <= buf.len(),
            items@.len() + remaining == count,
            count > 0,
            decode_elements(s, pos as int, remaining as nat, frame_view(items@)) == decode_spec(s),
        decreases remaining,
    {
        if pos >= buf.len() {
            return DecodeResult::Malformed;
        }
        if buf[pos] != 36 {
            return DecodeResult::Malformed;
        }
        let le = match find_line_end(buf, pos + 1) {
            None => return DecodeResult::Incomplete,
            Some(le) => le,
        };
        let n = match parse_decimal(buf, pos + 1, le, usize::MAX as u64) {
            None => return DecodeResult::Malformed,
            Some(n) => n as usize,
        };
        let start = le + 2;
        if start > buf.len() || n > buf.len() - start || buf.len() - start - n < 2 {
            return DecodeResult::Incomplete;
        }
        if buf[start + n] != 13 || buf[start + n + 1] != 10 {
            return DecodeResult::Malformed;
        }
        let item = copy_range(buf, start, start + n);
        let ghost before = items@;
        items.push(item);
        proof {
            assert(frame_view(items@) =~= frame_view(before).push(items@.last()@));
        }
        pos = start + n + 2;
        remaining = remaining - 1;
    }
    DecodeResult::Frame(items, pos)
}

/// The line terminator `\r\n`.
pub open spec fn crlf() -> Seq<u8> {
    seq![13u8, 10u8]
}

/// A reply of the wire protocol.
pub enum Reply {
    /// `+<text>\r\n`
    Simple(Vec<u8>),
    /// `$<len>\r\n<bytes>\r\n`
    Bulk(Vec<u8>),
    /// `$-1\r\n`
    NullBulk,
    /// `-<message>\r\n`
    Error(Vec<u8>),
}

/// The wire form of a bulk string.
pub open spec fn bulk_wire(b: Seq<u8>) -> Seq<u8> {
    seq![36u8] + decimal(b.len()) + crlf() + b + crlf()
}

impl Reply {
    /// The bytes that this reply is sent as.
    pub open spec fn wire(&self) -> Seq<u8> {
        match self {
            Reply::Simple(t) => seq![43u8] + t@ + crlf(),
            Reply::Bulk(b) => bulk_wire(b@),
            Reply::NullBulk => seq![36u8, 45u8, 49u8] + crlf(),
            Reply::Error(m) => seq![45u8] + m@ + crlf(),
        }
    }

    /// Serialises the reply into its wire form.
    pub fn encode(&self) -> (r: Vec<u8>)
        ensures
            r@ == self.wire(),
    {
        let mut out: Vec<u8> = Vec::new();
        match self {
            Reply::Simple(t) => {
                out.push(43u8);
                append_bytes(&mut out, t.as_slice());
                append_crlf(&mut out);
            },
            Reply::Bulk(b) => {
                append_bulk(&mut out, b.as_slice());
            },
            Reply::NullBulk => {
                out.push(36u8);
                out.push(45u8);
                out.push(49u8);
                append_crlf(&mut out);
            },
            Reply::Error(m) => {
                out.push(45u8);
                append_bytes(&mut out, m.as_slice());
                append_crlf(&mut out);
            },
        }
        proof {
            assert(out@ =~= self.wire());
        }
        out
    }
}

/// Appends `b` to `out`.
pub fn append_bytes(out: &mut Vec<u8>, b: &[u8])
    ensures
        final(out)@ == old(out)@ + b@,
{
    let mut i: usize = 0;
    while i < b.len()
        invariant
            i <= b.len(),
            out@ == old(out)@ + b@.subrange(0, i as int),
        decreases b.len() - i,
    {
        out.push(b[i]);
        proof {
            assert(b@.subrange(0, i + 1) =~= b@.subrange(0, i as int).push(b@[i as int]));
        }
        i = i + 1;
    }
    assert(b@.subrange(0, i as int) =~= b@);
}

/// Appends the line terminator to `out`.
pub fn append_crlf(out: &mut Vec<u8>)
    ensures
        final(out)@ == old(out)@ + crlf(),
{
    out.push(13u8);
    out.push(10u8);
    assert(out@ =~= old(out)@ + crlf());
}

/// Appends the decimal digits of `n` to `out`.
pub fn append_decimal(out: &mut Vec<u8>, n: usize)
    ensures
        final(out)@ == old(out)@ + decimal(n as nat),
    decreases n,
{
    if n < 10 {
        out.push((48 + n) as u8);
        assert(out@ =~= old(out)@ + decimal(n as nat));
    } else {
        append_decimal(out, n / 10);
        out.push((48 + n % 10) as u8);
        assert(out@ =~= old(out)@ + decimal(n as nat));
    }
}

/// Appends the wire form of the bulk string `b` to `out`.
pub fn append_bulk(out: &mut Vec<u8>, b: &[u8])
    ensures
        final(out)@ == old(out)@ + bulk_wire(b@),
{
    out.push(36u8);
    append_decimal(out, b.len());
    append_crlf(out);
    append_bytes(out, b);
    append_crlf(out);
    assert(out@ =~= old(out)@ + bulk_wire(b@));
}

/// The wire form of the bulk strings of `items` after their array header.
pub open spec fn elements_wire(items: Seq<Seq<u8>>) -> Seq<u8>
    decreases items.len(),
{
    if items.len() == 0 {
        Seq::empty()
    } else {
        elements_wire(items.drop_last()) + bulk_wire(items.last())
    }
}

/// The wire form of an array of bulk strings: the shape of every request.
pub open spec fn array_wire(items: Seq<Seq<u8>>) -> Seq<u8> {
    seq![42u8] + decimal(items.len()) + crlf() + elements_wire(items)
}

/// Serialises `items` as an array frame of bulk strings.
pub fn encode_array(items: &Vec<Vec<u8>>) -> (r: Vec<u8>)
    ensures
        r@ == array_wire(frame_view(items@)),
{
    let mut out: Vec<u8> = Vec::new();
    out.push(42u8);
    append_decimal(&mut out, items.len());
    append_crlf(&mut out);
    let ghost head = out@;
    let mut i: usize = 0;
    while i < items.len()
        invariant
            i <= items.len(),
            out@ == head + elements_wire(frame_view(items@).subrange(0, i as int)),
        decreases items.len() - i,
    {
        append_bulk(&mut out, items[i].as_slice());
        proof {
            let f = frame_view(items@);
            assert(f.subrange(0, i + 1).drop_last() =~= f.subrange(0, i as int));
        }
        i = i + 1;
    }
    proof {
        assert(frame_view(items@).subrange(0, i as int) =~= frame_view(items@));
        assert(out@ =~= array_wire(frame_view(items@)));
    }
    out
}

/// Whether two byte strings are equal.
pub fn bytes_eq(a: &[u8], b: &[u8]) -> (r: bool)
    ensures
        r == (a@ == b@),
{
    if a.len() != b.len() {
        return false;
    }
    let mut i: usize = 0;
    while i < a.len()
        invariant
            i <= a.len() == b.len(),
            forall|k: int| 0 <= k < i ==> a@[k] == b@[k],
        decreases a.len() - i,
    {
        if a[i] != b[i] {
            return false;
        }
        i = i + 1;
    }
    assert(a@ =~= b@);
    true
}

/// The decimal digits of a number read back give the number.
pub proof fn lemma_decimal(n: nat)
    ensures
        is_number(decimal(n)),
        digits_value(decimal(n)) == n,
    decreases n,
{
    if n < 10 {
        assert(decimal(n).drop_last() =~= Seq::<u8>::empty());
        assert(decimal(n).last() == (48 + n) as u8);
        assert(digits_value(decimal(n)) == digits_value(Seq::<u8>::empty()) * 10 + (decimal(n).last() - 48) as nat);
    } else {
        lemma_decimal(n / 10);
        let d = decimal(n / 10);
        assert(decimal(n).drop_last() =~= d);
        assert(decimal(n).last() == (48 + n % 10) as u8);
        assert((n / 10) * 10 + n % 10 == n);
        assert(digits_value(decimal(n)) == digits_value(d) * 10 + (decimal(n).last() - 48) as nat);
        assert(digits_value(d) == n / 10);
        assert forall|i: int| 0 <= i < decimal(n).len() implies is_digit(#[trigger] decimal(n)[i]) by {
            if i < d.len() {
                assert(decimal(n)[i] == d[i]);
            }
        }
    }
}

pub proof fn lemma_line_end_at(s: Seq<u8>, i: int, j: int)
    requires
        0 <= i <= j,
        j + 1 < s.len(),
        s[j] == 13,
        s[j + 1] == 10,
        forall|k: int| i <= k < j ==> s[k] != 13,
    ensures
        line_end(s, i) == Some(j),
    decreases j - i,
{
    if i < j {
        lemma_line_end_at(s, i + 1, j);
    }
}

/// `w` stands in `s` from `pos` on.
pub open spec fn occurs_at(s: Seq<u8>, pos: int, w: Seq<u8>) -> bool {
    0 <= pos && pos + w.len() <= s.len() && s.subrange(pos, pos + w.len()) == w
}

/// Reading a number line that `decimal(n)` followed by a terminator fills.
proof fn lemma_number_line(s: Seq<u8>, lo: int, n: nat)
    requires
        occurs_at(s, lo, decimal(n) + crlf()),
        n <= usize::MAX,
    ensures
        line_end(s, lo) == Some(lo + decimal(n).len()),
        small_number(s.subrange(lo, lo + decimal(n).len())) == Some(n),
{
    let d = decimal(n);
    let w = d + crlf();
    lemma_decimal(n);
    assert forall|k: int| lo <= k < lo + d.len() implies s[k] != 13 by {
        assert(s[k] == w[k - lo]);
        assert(w[k - lo] == d[k - lo]);
        assert(is_digit(d[k - lo]));
    }
    assert(s[lo + d.len()] == w[d.len() as int]);
    assert(s[lo + d.len() + 1] == w[d.len() + 1int]);
    lemma_line_end_at(s, lo, lo + d.len());
    assert(s.subrange(lo, lo + d.len()) =~= d) by {
        assert forall|k: int| 0 <= k < d.len() implies s.subrange(lo, lo + d.len())[k] == d[k] by {
            assert(s[lo + k] == w[k]);
        }
    }
}

/// What the decoder reads of one encoded bulk string.
proof fn lemma_bulk_at(s: Seq<u8>, pos: int, item: Seq<u8>)
    requires
        occurs_at(s, pos, bulk_wire(item)),
        item.len() <= usize::MAX,
    ensures
        s[pos] == 36,
        line_end(s, pos + 1) == Some(pos + 1 + decimal(item.len()).len()),
        small_number(s.subrange(pos + 1, pos + 1 + decimal(item.len()).len())) == Some(item.len()),
        ({
            let start = pos + 1 + decimal(item.len()).len() + 2;
            &&& start + item.len() + 2 == pos + bulk_wire(item).len()
            &&& s[start + item.len()] == 13
            &&& s[start + item.len() + 1] == 10
            &&& s.subrange(start, start + item.len()) == item
        }),
{
    let d = decimal(item.len());
    let w = bulk_wire(item);
    let start = pos + 1 + d.len() + 2;
    assert(s[pos] == w[0]);
    assert(s.subrange(pos + 1, pos + 1 + d.len() + 2) =~= d + crlf()) by {
        assert forall|k: int| 0 <= k < d.len() + 2 implies s.subrange(pos + 1, pos + 1 + d.len() + 2)[k] == (d + crlf())[k] by {
            assert(s[pos + 1 + k] == w[1 + k]);
        }
    }
    assert(occurs_at(s, pos + 1, d + crlf()));
    lemma_number_line(s, pos + 1, item.len());
    assert(s[start + item.len()] == w[start + item.len() - pos]);
    assert(s[start + item.len() + 1] == w[start + item.len() + 1 - pos]);
    assert(s.subrange(start, start + item.len()) =~= item) by {
        assert forall|k: int| 0 <= k < item.len() implies s.subrange(start, start + item.len())[k] == item[k] by {
            assert(s[start + k] == w[start + k - pos]);
        }
    }
}

proof fn lemma_elements_prefix(items: Seq<Seq<u8>>, j: int)
    requires
        0 <= j <= items.len(),
    ensures
        elements_wire(items.subrange(0, j)).len() <= elements_wire(items).len(),
        elements_wire(items).subrange(0, elements_wire(items.subrange(0, j)).len() as int)
            == elements_wire(items.subrange(0, j)),
    decreases items.len(),
{
    if j == items.len() {
        assert(items.subrange(0, j) =~= items);
        assert(elements_wire(items).subrange(0, elements_wire(items).len() as int) =~= elements_wire(items));
    } else {
        let rest = items.drop_last();
        lemma_elements_prefix(rest, j);
        assert(rest.subrange(0, j) =~= items.subrange(0, j));
        let p = elements_wire(items.subrange(0, j));
        assert(elements_wire(items).subrange(0, p.len() as int) =~= elements_wire(rest).subrange(0, p.len() as int));
    }
}

proof fn lemma_elements(s: Seq<u8>, items: Seq<Seq<u8>>, base: int, k: int)
    requires
        occurs_at(s, base, elements_wire(items)),
        forall|i: int| 0 <= i < items.len() ==> (#[trigger] items[i]).len() <= usize::MAX,
        0 <= k <= items.len(),
    ensures
        decode_elements(
            s,
            base + elements_wire(items.subrange(0, k)).len(),
            (items.len() - k) as nat,
            items.subrange(0, k),
        ) == Decoded::Frame(items, (base + elements_wire(items).len()) as nat),
    decreases items.len() - k,
{
    let pos = base + elements_wire(items.subrange(0, k)).len();
    if k == items.len() {
        assert(items.subrange(0, k) =~= items);
    } else {
        let item = items[k];
        let bw = bulk_wire(item);
        let next = items.subrange(0, k + 1);
        assert(next.drop_last() =~= items.subrange(0, k));
        assert(elements_wire(next) == elements_wire(items.subrange(0, k)) + bw);
        lemma_elements_prefix(items, k + 1);
        let ew = elements_wire(items);
        assert(occurs_at(s, pos, bw)) by {
            assert forall|i: int| 0 <= i < bw.len() implies s.subrange(pos, pos + bw.len())[i] == bw[i] by {
                let off = elements_wire(items.subrange(0, k)).len() + i;
                assert(elements_wire(next)[off] == bw[i]);
                assert(ew.subrange(0, elements_wire(next).len() as int)[off] == ew[off]);
                assert(s[base + off] == s.subrange(base, base + ew.len())[off]);
            }
            assert(s.subrange(pos, pos + bw.len()) =~= bw);
        }
        lemma_bulk_at(s, pos, item);
        assert(items.subrange(0, k).push(item) =~= next);
        lemma_elements(s, items, base, k + 1);
    }
}

/// Decoding an encoded array of bulk strings, whatever follows it, gives the
/// same strings back and the length of their encoding.
pub proof fn decode_encoded_array(items: Seq<Seq<u8>>, tail: Seq<u8>)
    requires
        items.len() > 0,
        items.len() <= usize::MAX,
        forall|i: int| 0 <= i < items.len() ==> (#[trigger] items[i]).len() <= usize::MAX,
    ensures
        decode_spec(array_wire(items) + tail) == Decoded::Frame(items, array_wire(items).len()),
{
    let s = array_wire(items) + tail;
    let d = decimal(items.len());
    let ew = elements_wire(items);
    let base: int = 1 + d.len() as int + 2;
    assert(s[0] == 42);
    assert(s.subrange(1, base) =~= d + crlf()) by {
        assert forall|k: int| 0 <= k < d.len() + 2 implies s.subrange(1, base)[k] == (d + crlf())[k] by {
            assert(s[1 + k] == array_wire(items)[1 + k]);
        }
    }
    lemma_number_line(s, 1, items.len());
    assert(s.subrange(base, base + ew.len()) =~= ew) by {
        assert forall|k: int| 0 <= k < ew.len() implies s.subrange(base, base + ew.len())[k] == ew[k] by {
            assert(s[base + k] == array_wire(items)[base + k]);
        }
    }
    assert(items.subrange(0, 0) =~= Seq::<Seq<u8>>::empty());
    lemma_elements(s, items, base, 0);
}

/// The index of the first byte `b` at or after `i`.
pub open spec fn byte_index(s: Seq<u8>, i: int, b: u8) -> Option<int>
    decreases s.len() - i,
{
    if i < 0 || i >= s.len() {
        None
    } else if s[i] == b {
        Some(i)
    } else {
        byte_index(s, i + 1, b)
    }
}

pub proof fn lemma_byte_index_at(s: Seq<u8>, i: int, j: int, b: u8)
    requires
        0 <= i <= j < s.len(),
        s[j] == b,
        forall|k: int| i <= k < j ==> s[k] != b,
    ensures
        byte_index(s, i, b) == Some(j),
    decreases j - i,
{
    if i < j {
        lemma_byte_index_at(s, i + 1, j, b);
    }
}

/// Finds the first byte `b` at or after `from`.
pub fn find_byte(buf: &[u8], from: usize, b: u8) -> (r: Option<usize>)
    ensures
        match r {
            Some(j) => byte_index(buf@, from as int, b) == Some(j as int) && from <= j < buf.len(),
            None => byte_index(buf@, from as int, b) is None,
        },
{
    let mut i: usize = from;
    while i < buf.len()
        invariant
            from <= i,
            byte_index(buf@, from as int, b) == byte_index(buf@, i as int, b),
        decreases buf.len() - i,
    {
        if buf[i] == b {
            return Some(i);
        }
        i = i + 1;
    }
    None
}

/// Whether `buf[lo..hi]` is a non-empty run of decimal digits.
pub fn is_number_range(buf: &[u8], lo: usize, hi: usize) -> (r: bool)
    requires
        lo <= hi <= buf.len(),
    ensures
        r == is_number(buf@.subrange(lo as int, hi as int)),
{
    let ghost s = buf@.subrange(lo as int, hi as int);
    if lo == hi {
        return false;
    }
    let mut j: usize = lo;
    while j < hi
        invariant
            lo <= j <= hi <= buf.len(),
            s == buf@.subrange(lo as int, hi as int),
            forall|k: int| lo <= k < j ==> is_digit(#[trigger] buf@[k]),
        decreases hi - j,
    {
        if buf[j] < 48 || buf[j] > 57 {
            assert(s[j as int - lo as int] == buf@[j as int]);
            return false;
        }
        j = j + 1;
    }
    assert forall|k: int| 0 <= k < s.len() implies is_digit(#[trigger] s[k]) by {
        assert(s[k] == buf@[lo + k]);
    }
    true
}

} // verus!
