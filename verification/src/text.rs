//! Byte strings as they occur in header field values: trimming, splitting,
//! case-insensitive comparison and decimal numbers.
use vstd::prelude::*;

verus! {

/// The byte strings held by a vector of byte vectors.
pub open spec fn views(v: Seq<Vec<u8>>) -> Seq<Seq<u8>> {
    Seq::new(v.len(), |i: int| v[i]@)
}

/// The bytes of a string.
pub open spec fn bytes(s: &str) -> Seq<u8> {
    vstd::utf8::encode_utf8(s@)
}

/// Whether a header value is readable as text: visible ASCII, space and tab.
pub open spec fn is_text(v: Seq<u8>) -> bool {
    forall|i: int| 0 <= i < v.len() ==> is_text_byte(#[trigger] v[i])
}

pub open spec fn is_text_byte(b: u8) -> bool {
    32 <= b < 127 || b == 9
}

pub open spec fn lower_byte(b: u8) -> u8 {
    if 65 <= b <= 90 {
        (b + 32) as u8
    } else {
        b
    }
}

/// A byte string with its ASCII letters in lower case.
pub open spec fn lower(v: Seq<u8>) -> Seq<u8> {
    Seq::new(v.len(), |i: int| lower_byte(v[i]))
}

/// What [`trim`] and [`trim_quotes`] take off the ends of a string.
#[derive(Clone, Copy)]
pub enum Strip {
    Blank,
    Quote,
}

pub open spec fn strips(kind: Strip, b: u8) -> bool {
    match kind {
        Strip::Blank => b == 32 || b == 9,
        Strip::Quote => b == 34,
    }
}

pub open spec fn strip_front(v: Seq<u8>, kind: Strip) -> Seq<u8>
    decreases v.len(),
{
    if v.len() > 0 && strips(kind, v[0]) {
        strip_front(v.skip(1), kind)
    } else {
        v
    }
}

pub open spec fn strip_back(v: Seq<u8>, kind: Strip) -> Seq<u8>
    decreases v.len(),
{
    if v.len() > 0 && strips(kind, v.last()) {
        strip_back(v.drop_last(), kind)
    } else {
        v
    }
}

/// `v` without the spaces and tabs at its ends.
pub open spec fn trim(v: Seq<u8>) -> Seq<u8> {
    strip_back(strip_front(v, Strip::Blank), Strip::Blank)
}

/// `v` without the double quotes at its ends.
pub open spec fn trim_quotes(v: Seq<u8>) -> Seq<u8> {
    strip_back(strip_front(v, Strip::Quote), Strip::Quote)
}

/// The index of the first `b` in `v`, or the length of `v` without one.
pub open spec fn find(v: Seq<u8>, b: u8) -> nat
    decreases v.len(),
{
    if v.len() == 0 || v[0] == b {
        0
    } else {
        1 + find(v.skip(1), b)
    }
}

/// The pieces of `v` between occurrences of `sep`; always at least one.
pub open spec fn split(v: Seq<u8>, sep: u8) -> Seq<Seq<u8>>
    decreases v.len(),
{
    let i = find(v, sep) as int;
    if i >= v.len() {
        seq![v]
    } else {
        seq![v.take(i)] + split(v.skip(i + 1), sep)
    }
}

/// The parts of `v` before and after its first `sep`.
pub open spec fn split_once(v: Seq<u8>, sep: u8) -> Option<(Seq<u8>, Seq<u8>)> {
    let i = find(v, sep) as int;
    if i < v.len() {
        Some((v.take(i), v.skip(i + 1)))
    } else {
        None
    }
}

/// The trimmed, comma-separated items of one header value; a value that is not
/// text has none.
pub open spec fn items_of(v: Seq<u8>) -> Seq<Seq<u8>> {
    if is_text(v) {
        Seq::new(split(v, 44).len(), |i: int| trim(split(v, 44)[i]))
    } else {
        seq![]
    }
}

/// The trimmed, comma-separated items of all the values of a header field.
pub open spec fn items(values: Seq<Seq<u8>>) -> Seq<Seq<u8>>
    decreases values.len(),
{
    if values.len() == 0 {
        seq![]
    } else {
        items(values.drop_last()) + items_of(values.last())
    }
}

pub open spec fn all_digits(v: Seq<u8>) -> bool {
    forall|i: int| 0 <= i < v.len() ==> 48 <= #[trigger] v[i] <= 57
}

pub open spec fn digits_value(v: Seq<u8>) -> nat
    decreases v.len(),
{
    if v.len() == 0 {
        0
    } else {
        digits_value(v.drop_last()) * 10 + (v.last() - 48) as nat
    }
}

pub open spec fn unsigned(v: Seq<u8>) -> Seq<u8> {
    if v.len() > 0 && v[0] == 43 {
        v.skip(1)
    } else {
        v
    }
}

/// The decimal number `v` spells, with an optional plus sign, if it fits in 64
/// bits.
pub open spec fn decimal(v: Seq<u8>) -> Option<u64> {
    let d = unsigned(v);
    if d.len() > 0 && all_digits(d) && digits_value(d) <= u64::MAX {
        Some(digits_value(d) as u64)
    } else {
        None
    }
}

/// An exact copy of a byte string.
pub fn copy_bytes(v: &[u8]) -> (r: Vec<u8>)
    ensures
        r@ == v@,
{
    vstd::slice::slice_to_vec(v)
}

/// An exact copy of part of a byte string.
pub fn copy_range(v: &[u8], start: usize, end: usize) -> (r: Vec<u8>)
    requires
        start <= end <= v@.len(),
    ensures
        r@ == v@.subrange(start as int, end as int),
{
    vstd::slice::slice_to_vec(vstd::slice::slice_subrange(v, start, end))
}

/// Whether two byte strings are equal.
pub fn same(a: &[u8], b: &[u8]) -> (r: bool)
    ensures
        r == (a@ == b@),
{
    if a.len() != b.len() {
        return false;
    }
    let mut i: usize = 0;
    while i < a.len()
        invariant
            a@.len() == b@.len(),
            i <= a@.len(),
            forall|j: int| 0 <= j < i ==> a@[j] == b@[j],
        decreases a@.len() - i,
    {
        if a[i] != b[i] {
            return false;
        }
        i += 1;
    }
    assert(a@ =~= b@);
    true
}

fn lower_of(b: u8) -> (r: u8)
    ensures
        r == lower_byte(b),
{
    if 65 <= b && b <= 90 {
        b + 32
    } else {
        b
    }
}

/// A copy of a byte string with its ASCII letters in lower case.
pub fn to_lower(v: &[u8]) -> (r: Vec<u8>)
    ensures
        r@ == lower(v@),
{
    let mut r: Vec<u8> = Vec::new();
    let mut i: usize = 0;
    while i < v.len()
        invariant
            i <= v@.len(),
            r@.len() == i,
            forall|j: int| 0 <= j < i ==> r@[j] == lower_byte(v@[j]),
        decreases v@.len() - i,
    {
        r.push(lower_of(v[i]));
        i += 1;
    }
    assert(r@ =~= lower(v@));
    r
}

/// Whether two byte strings are equal up to the case of ASCII letters.
pub fn same_ignoring_case(a: &[u8], b: &[u8]) -> (r: bool)
    ensures
        r == (lower(a@) == lower(b@)),
{
    if a.len() != b.len() {
        assert(lower(a@).len() != lower(b@).len());
        return false;
    }
    let mut i: usize = 0;
    while i < a.len()
        invariant
            a@.len() == b@.len(),
            i <= a@.len(),
            forall|j: int| 0 <= j < i ==> lower_byte(a@[j]) == lower_byte(b@[j]),
        decreases a@.len() - i,
    {
        if lower_of(a[i]) != lower_of(b[i]) {
            assert(lower(a@)[i as int] != lower(b@)[i as int]);
            return false;
        }
        i += 1;
    }
    assert(lower(a@) =~= lower(b@));
    true
}

/// Whether a list holds a value.
pub fn contains(list: &Vec<Vec<u8>>, value: &[u8]) -> (r: bool)
    ensures
        r == views(list@).contains(value@),
{
    let mut i: usize = 0;
    while i < list.len()
        invariant
            i <= list@.len(),
            forall|j: int| 0 <= j < i ==> #[trigger] views(list@)[j] != value@,
        decreases list@.len() - i,
    {
        if same(list[i].as_slice(), value) {
            assert(views(list@)[i as int] == value@);
            return true;
        }
        i += 1;
    }
    false
}

/// Whether a header value is readable as text.
pub fn check_text(v: &[u8]) -> (r: bool)
    ensures
        r == is_text(v@),
{
    let mut i: usize = 0;
    while i < v.len()
        invariant
            i <= v@.len(),
            forall|j: int| 0 <= j < i ==> is_text_byte(#[trigger] v@[j]),
        decreases v@.len() - i,
    {
        if !(32 <= v[i] && v[i] < 127 || v[i] == 9) {
            assert(!is_text_byte(v@[i as int]));
            return false;
        }
        i += 1;
    }
    true
}

fn strip(v: &[u8], kind: Strip) -> (r: Vec<u8>)
    ensures
        r@ == strip_back(strip_front(v@, kind), kind),
{
    let mut start: usize = 0;
    assert(v@.skip(0) =~= v@);
    loop
        invariant
            start <= v@.len(),
            strip_front(v@, kind) == strip_front(v@.skip(start as int), kind),
        ensures
            start <= v@.len(),
            strip_front(v@, kind) == v@.skip(start as int),
        decreases v@.len() - start,
    {
        if start >= v.len() {
            break;
        }
        let b: u8 = v[start];
        let hit: bool = match kind {
            Strip::Blank => b == 32 || b == 9,
            Strip::Quote => b == 34,
        };
        if !hit {
            break;
        }
        assert(v@.skip(start as int).skip(1) =~= v@.skip(start + 1));
        start += 1;
    }
    let mut end: usize = v.len();
    assert(v@.subrange(start as int, end as int) =~= v@.skip(start as int));
    loop
        invariant
            start <= end <= v@.len(),
            strip_back(v@.skip(start as int), kind) == strip_back(
                v@.subrange(start as int, end as int),
                kind,
            ),
        ensures
            start <= end <= v@.len(),
            strip_back(v@.skip(start as int), kind) == v@.subrange(start as int, end as int),
        decreases end,
    {
        if end <= start {
            break;
        }
        let b: u8 = v[end - 1];
        let hit: bool = match kind {
            Strip::Blank => b == 32 || b == 9,
            Strip::Quote => b == 34,
        };
        if !hit {
            break;
        }
        assert(v@.subrange(start as int, end as int).drop_last() =~= v@.subrange(
            start as int,
            end - 1,
        ));
        end -= 1;
    }
    copy_range(v, start, end)
}

/// A copy of a byte string without the spaces and tabs at its ends.
pub fn trimmed(v: &[u8]) -> (r: Vec<u8>)
    ensures
        r@ == trim(v@),
{
    strip(v, Strip::Blank)
}

/// A copy of a byte string without the double quotes at its ends.
pub fn unquoted(v: &[u8]) -> (r: Vec<u8>)
    ensures
        r@ == trim_quotes(v@),
{
    strip(v, Strip::Quote)
}

proof fn lemma_find_bound(v: Seq<u8>, b: u8)
    ensures
        find(v, b) <= v.len(),
    decreases v.len(),
{
    if v.len() > 0 && v[0] != b {
        lemma_find_bound(v.skip(1), b);
    }
}

pub proof fn lemma_find_is(v: Seq<u8>, b: u8, i: int)
    requires
        0 <= i <= v.len(),
        forall|j: int| 0 <= j < i ==> v[j] != b,
        i < v.len() ==> v[i] == b,
    ensures
        find(v, b) == i,
    decreases i,
{
    if i > 0 {
        assert forall|j: int| 0 <= j < i - 1 implies v.skip(1)[j] != b by {
            assert(v[j + 1] != b);
        }
        lemma_find_is(v.skip(1), b, i - 1);
    }
}

/// The index of the first `b`, or the length without one.
pub fn position(v: &[u8], b: u8) -> (r: usize)
    ensures
        r == find(v@, b),
        r <= v@.len(),
        r < v@.len() ==> v@[r as int] == b,
{
    let mut i: usize = 0;
    while i < v.len()
        invariant
            i <= v@.len(),
            forall|j: int| 0 <= j < i ==> v@[j] != b,
        decreases v@.len() - i,
    {
        if v[i] == b {
            proof {
                lemma_find_is(v@, b, i as int);
            }
            return i;
        }
        i += 1;
    }
    proof {
        lemma_find_is(v@, b, i as int);
    }
    i
}

/// The parts before and after the first `sep`.
pub fn split_at_first(v: &[u8], sep: u8) -> (r: Option<(Vec<u8>, Vec<u8>)>)
    ensures
        r is Some == split_once(v@, sep) is Some,
        r matches Some(p) ==> split_once(v@, sep) == Some((p.0@, p.1@)),
{
    let i: usize = position(v, sep);
    if i < v.len() {
        let head: Vec<u8> = copy_range(v, 0, i);
        let tail: Vec<u8> = copy_range(v, i + 1, v.len());
        assert(v@.subrange(0, i as int) =~= v@.take(i as int));
        assert(v@.subrange(i + 1, v@.len() as int) =~= v@.skip(i + 1));
        Some((head, tail))
    } else {
        None
    }
}

/// The pieces of a byte string between occurrences of `sep`.
pub fn split_all(v: &[u8], sep: u8) -> (r: Vec<Vec<u8>>)
    ensures
        views(r@) == split(v@, sep),
{
    let mut out: Vec<Vec<u8>> = Vec::new();
    let mut rest: Vec<u8> = copy_bytes(v);
    assert(views(out@) + split(rest@, sep) =~= split(v@, sep));
    loop
        invariant_except_break
            views(out@) + split(rest@, sep) == split(v@, sep),
        ensures
            views(out@) == split(v@, sep),
        decreases rest@.len(),
    {
        let i: usize = position(rest.as_slice(), sep);
        if i >= rest.len() {
            let ghost before = views(out@);
            let ghost last = rest@;
            out.push(rest);
            assert(views(out@) =~= before + seq![last]);
            break;
        }
        let piece: Vec<u8> = copy_range(rest.as_slice(), 0, i);
        let tail: Vec<u8> = copy_range(rest.as_slice(), i + 1, rest.len());
        assert(piece@ =~= rest@.take(i as int));
        assert(tail@ =~= rest@.skip(i + 1));
        let ghost before = views(out@);
        let ghost head = piece@;
        let ghost all = rest@;
        out.push(piece);
        assert(views(out@) =~= before + seq![head]);
        assert(split(all, sep) =~= seq![head] + split(tail@, sep));
        assert(views(out@) + split(tail@, sep) =~= before + split(all, sep));
        rest = tail;
    }
    out
}

/// The trimmed, comma-separated items of all the values of a header field.
pub fn field_items(values: &Vec<Vec<u8>>) -> (r: Vec<Vec<u8>>)
    ensures
        views(r@) == items(views(values@)),
{
    let mut out: Vec<Vec<u8>> = Vec::new();
    let mut i: usize = 0;
    assert(views(out@) =~= items(views(values@).take(0)));
    while i < values.len()
        invariant
            i <= values@.len(),
            views(out@) == items(views(values@).take(i as int)),
        decreases values@.len() - i,
    {
        let ghost upto = views(values@).take(i + 1);
        assert(upto.drop_last() =~= views(values@).take(i as int));
        assert(upto.last() == values@[i as int]@);
        let ghost before = views(out@);
        if check_text(values[i].as_slice()) {
            let pieces: Vec<Vec<u8>> = split_all(values[i].as_slice(), 44);
            let ghost whole = split(values@[i as int]@, 44);
            let mut j: usize = 0;
            while j < pieces.len()
                invariant
                    j <= pieces@.len(),
                    views(pieces@) == whole,
                    views(out@) == before + Seq::new(j as nat, |k: int| trim(whole[k])),
                decreases pieces@.len() - j,
            {
                let piece: Vec<u8> = trimmed(pieces[j].as_slice());
                let ghost so_far = views(out@);
                let ghost one = piece@;
                assert(views(pieces@)[j as int] == pieces@[j as int]@);
                out.push(piece);
                assert(views(out@) =~= so_far.push(one));
                assert(views(out@) =~= before + Seq::new((j + 1) as nat, |k: int| trim(whole[k])));
                j += 1;
            }
            assert(views(out@) =~= before + items_of(values@[i as int]@));
        } else {
            assert(before =~= before + items_of(values@[i as int]@));
        }
        i += 1;
    }
    assert(views(values@).take(i as int) =~= views(values@));
    out
}

proof fn lemma_digits_prefix(v: Seq<u8>, i: int)
    requires
        0 <= i <= v.len(),
        all_digits(v),
    ensures
        digits_value(v.take(i)) <= digits_value(v),
    decreases v.len(),
{
    if i == v.len() {
        assert(v.take(i) =~= v);
    } else {
        assert(all_digits(v.drop_last()));
        lemma_digits_prefix(v.drop_last(), i);
        assert(v.drop_last().take(i) =~= v.take(i));
    }
}

/// The decimal number a byte string spells, if it fits in 64 bits.
pub fn parse_decimal(v: &[u8]) -> (r: Option<u64>)
    ensures
        r == decimal(v@),
{
    let signed: bool = v.len() > 0 && v[0] == 43;
    let start: usize = if signed {
        1
    } else {
        0
    };
    let ghost d = unsigned(v@);
    assert(d =~= v@.skip(start as int));
    if start >= v.len() {
        return None;
    }
    let mut value: u64 = 0;
    let mut i: usize = start;
    assert(d.take(0) =~= Seq::<u8>::empty());
    while i < v.len()
        invariant
            start <= i <= v@.len(),
            start < v@.len(),
            d == unsigned(v@),
            d == v@.skip(start as int),
            forall|j: int| 0 <= j < i - start ==> 48 <= #[trigger] d[j] <= 57,
            value == digits_value(d.take(i - start)),
        decreases v@.len() - i,
    {
        let b: u8 = v[i];
        assert(d[i - start] == b);
        if b < 48 || b > 57 {
            assert(!all_digits(d));
            return None;
        }
        let digit: u64 = (b - 48) as u64;
        assert(d.take(i - start + 1).drop_last() =~= d.take(i - start));
        assert(d.take(i - start + 1).last() == b);
        assert(digits_value(d.take(i - start + 1)) == value * 10 + digit);
        if value > (u64::MAX - digit) / 10 {
            proof {
                assert(value * 10 + digit > u64::MAX);
                if all_digits(d) {
                    lemma_digits_prefix(d, i - start + 1);
                }
            }
            return None;
        }
        value = value * 10 + digit;
        i += 1;
    }
    assert(d.take(i - start) =~= d);
    Some(value)
}

/// A number in decimal digits, without leading zeros.
pub open spec fn decimal_text(n: nat) -> Seq<u8>
    decreases n,
{
    if n < 10 {
        seq![(48 + n) as u8]
    } else {
        decimal_text(n / 10).push((48 + n % 10) as u8)
    }
}

/// A number written out in decimal digits is read back as the same number.
pub proof fn lemma_decimal_text(n: nat)
    ensures
        decimal_text(n).len() > 0,
        all_digits(decimal_text(n)),
        digits_value(decimal_text(n)) == n,
        n <= u64::MAX ==> decimal(decimal_text(n)) == Some(n as u64),
    decreases n,
{
    reveal_with_fuel(digits_value, 2);
    if n >= 10 {
        lemma_decimal_text(n / 10);
        assert(decimal_text(n).drop_last() =~= decimal_text(n / 10));
    }
}

/// A number written out in decimal digits.
pub fn render_decimal(n: u64) -> (r: Vec<u8>)
    ensures
        r@ == decimal_text(n as nat),
    decreases n,
{
    if n < 10 {
        let mut r: Vec<u8> = Vec::new();
        r.push(48 + n as u8);
        assert(r@ =~= decimal_text(n as nat));
        r
    } else {
        let mut r: Vec<u8> = render_decimal(n / 10);
        r.push(48 + (n % 10) as u8);
        r
    }
}

/// The lower-case hexadecimal digit of a number below sixteen.
pub open spec fn hex_digit(n: int) -> u8 {
    if n < 10 {
        (48 + n) as u8
    } else {
        (87 + n) as u8
    }
}

/// A byte string in hexadecimal digits, two for each byte.
pub open spec fn hex(v: Seq<u8>) -> Seq<u8> {
    Seq::new(
        2 * v.len(),
        |i: int|
            if i % 2 == 0 {
                hex_digit((v[i / 2] / 16) as int)
            } else {
                hex_digit((v[i / 2] % 16) as int)
            },
    )
}

fn hex_digit_of(n: u8) -> (r: u8)
    requires
        n < 16,
    ensures
        r == hex_digit(n as int),
{
    if n < 10 {
        48 + n
    } else {
        87 + n
    }
}

/// A byte string in hexadecimal digits.
pub fn render_hex(v: &[u8]) -> (r: Vec<u8>)
    ensures
        r@ == hex(v@),
{
    let mut r: Vec<u8> = Vec::new();
    let mut i: usize = 0;
    while i < v.len()
        invariant
            i <= v@.len(),
            r@.len() == 2 * i,
            forall|j: int| 0 <= j < 2 * i ==> r@[j] == hex(v@)[j],
        decreases v@.len() - i,
    {
        let b: u8 = v[i];
        r.push(hex_digit_of(b / 16));
        r.push(hex_digit_of(b % 16));
        i += 1;
    }
    assert(r@ =~= hex(v@));
    r
}

/// Parts with a separator between each two of them.
pub open spec fn joined(parts: Seq<Seq<u8>>, sep: u8) -> Seq<u8>
    decreases parts.len(),
{
    if parts.len() == 0 {
        seq![]
    } else if parts.len() == 1 {
        parts[0]
    } else {
        parts[0] + seq![sep] + joined(parts.skip(1), sep)
    }
}

/// The parts that a text is split into hold no separator, and with separators between them
/// they are the text again.
pub proof fn law_split_parts(v: Seq<u8>, sep: u8)
    ensures
        split(v, sep).len() > 0,
        joined(split(v, sep), sep) == v,
        forall|i: int| 0 <= i < split(v, sep).len() ==> !(#[trigger] split(v, sep)[i]).contains(sep),
    decreases v.len(),
{
    let i = find(v, sep) as int;
    let parts = split(v, sep);
    lemma_find_bound(v, sep);
    lemma_found_first(v, sep);
    if i < v.len() {
        let rest = v.skip(i + 1);
        law_split_parts(rest, sep);
        assert(parts.skip(1) =~= split(rest, sep));
        assert(joined(parts, sep) =~= v);
        assert forall|k: int| 0 <= k < parts.len() implies !(#[trigger] parts[k]).contains(
            sep,
        ) by {
            if k > 0 {
                assert(parts[k] == split(rest, sep)[k - 1]);
            } else {
                assert(parts[0] == v.take(i));
            }
        }
    } else {
        assert forall|k: int| 0 <= k < parts.len() implies !(#[trigger] parts[k]).contains(
            sep,
        ) by {
            assert(parts[k] == v);
        }
    }
}

proof fn lemma_found_first(v: Seq<u8>, b: u8)
    ensures
        forall|j: int| 0 <= j < find(v, b) ==> v[j] != b,
        find(v, b) < v.len() ==> v[find(v, b) as int] == b,
        find(v, b) <= v.len(),
    decreases v.len(),
{
    if v.len() > 0 && v[0] != b {
        lemma_found_first(v.skip(1), b);
        assert forall|j: int| 0 <= j < find(v, b) implies v[j] != b by {
            if j > 0 {
                assert(v.skip(1)[j - 1] == v[j]);
            }
        }
    }
}

/// A text is split at its first separator: that stands between the two parts, and not in the
/// first of them. A text without one is not split.
pub proof fn law_split_once(v: Seq<u8>, sep: u8)
    ensures
        match split_once(v, sep) {
            Some(parts) => v == parts.0 + seq![sep] + parts.1 && !parts.0.contains(sep),
            None => !v.contains(sep),
        },
{
    lemma_found_first(v, sep);
    if let Some(parts) = split_once(v, sep) {
        assert(v =~= parts.0 + seq![sep] + parts.1);
    }
}

/// Whether a text is the middle of another one of which the rest are bytes of a kind, and
/// itself neither begins nor ends with one.
pub open spec fn is_core(core: Seq<u8>, v: Seq<u8>, from: int, kind: Strip) -> bool {
    &&& 0 <= from <= from + core.len() <= v.len()
    &&& core == v.subrange(from, from + core.len())
    &&& forall|i: int|
        0 <= i < v.len() && !(from <= i < from + core.len()) ==> strips(kind, #[trigger] v[i])
    &&& core.len() > 0 ==> !strips(kind, core[0]) && !strips(kind, core.last())
}

/// Trimming takes the blanks off both ends and nothing else, and taking off quotes does the
/// same with quotes.
pub proof fn law_trimmed(v: Seq<u8>)
    ensures
        exists|from: int| #[trigger] is_core(trim(v), v, from, Strip::Blank),
        exists|from: int| #[trigger] is_core(trim_quotes(v), v, from, Strip::Quote),
        forall|b: u8| #[trigger] strips(Strip::Blank, b) <==> b == ' ' as u8 || b == '\t' as u8,
        forall|b: u8| #[trigger] strips(Strip::Quote, b) <==> b == '"' as u8,
{
    lemma_stripped(v, Strip::Blank);
    lemma_stripped(v, Strip::Quote);
    let blank = choose|from: int| #[trigger]
        is_core(strip_back(strip_front(v, Strip::Blank), Strip::Blank), v, from, Strip::Blank);
    let quote = choose|from: int| #[trigger]
        is_core(strip_back(strip_front(v, Strip::Quote), Strip::Quote), v, from, Strip::Quote);
    assert(is_core(trim(v), v, blank, Strip::Blank));
    assert(is_core(trim_quotes(v), v, quote, Strip::Quote));
}

proof fn lemma_stripped(v: Seq<u8>, kind: Strip)
    ensures
        exists|from: int| #[trigger]
            is_core(strip_back(strip_front(v, kind), kind), v, from, kind),
{
    let front = strip_front(v, kind);
    let core = strip_back(front, kind);
    lemma_strip_front(v, kind);
    lemma_strip_back(front, kind);
    let from = v.len() - front.len();
    assert(core =~= v.subrange(from, from + core.len()));
    assert forall|i: int| 0 <= i < v.len() && !(from <= i < from + core.len()) implies strips(
        kind,
        #[trigger] v[i],
    ) by {
        if i >= from {
            assert(front[i - from] == v[i]);
        }
    }
    if core.len() > 0 {
        assert(core[0] == front[0]);
    }
    assert(is_core(core, v, from, kind));
}

proof fn lemma_strip_front(v: Seq<u8>, kind: Strip)
    ensures
        ({
            let front = strip_front(v, kind);
            let from = v.len() - front.len();
            &&& 0 <= from <= v.len()
            &&& front == v.skip(from)
            &&& forall|i: int| 0 <= i < from ==> strips(kind, #[trigger] v[i])
            &&& front.len() > 0 ==> !strips(kind, front[0])
        }),
    decreases v.len(),
{
    if v.len() > 0 && strips(kind, v[0]) {
        lemma_strip_front(v.skip(1), kind);
        let front = strip_front(v, kind);
        let from = v.len() - front.len();
        assert(v.skip(1).skip(from - 1) =~= v.skip(from));
        assert forall|i: int| 0 <= i < from implies strips(kind, #[trigger] v[i]) by {
            if i > 0 {
                assert(v.skip(1)[i - 1] == v[i]);
            }
        }
    } else {
        assert(v.skip(0) =~= v);
    }
}

proof fn lemma_strip_back(v: Seq<u8>, kind: Strip)
    ensures
        ({
            let back = strip_back(v, kind);
            &&& back.len() <= v.len()
            &&& back == v.take(back.len() as int)
            &&& forall|i: int| back.len() <= i < v.len() ==> strips(kind, #[trigger] v[i])
            &&& back.len() > 0 ==> !strips(kind, back.last())
        }),
    decreases v.len(),
{
    if v.len() > 0 && strips(kind, v.last()) {
        let front = v.drop_last();
        lemma_strip_back(front, kind);
        let back = strip_back(v, kind);
        assert(front.take(back.len() as int) =~= v.take(back.len() as int));
        assert forall|i: int| back.len() <= i < v.len() implies strips(kind, #[trigger] v[i]) by {
            if i < front.len() {
                assert(front[i] == v[i]);
            }
        }
    } else {
        assert(v.take(v.len() as int) =~= v);
    }
}

/// Lower case is the same letters without their case: it differs in the capital letters of
/// ASCII only, which become the small ones, and does so once.
pub proof fn law_lower(v: Seq<u8>, i: int)
    requires
        0 <= i < v.len(),
    ensures
        lower(v).len() == v.len(),
        lower(lower(v)) == lower(v),
        'A' as u8 <= v[i] <= 'Z' as u8 ==> 'a' as u8 <= lower(v)[i] <= 'z' as u8 && lower(v)[i]
            - 'a' as u8 == v[i] - 'A' as u8,
        !('A' as u8 <= v[i] <= 'Z' as u8) ==> lower(v)[i] == v[i],
{
    assert(lower(lower(v)) =~= lower(v));
}

/// The number that a hexadecimal digit stands for.
pub open spec fn hex_value(b: u8) -> int {
    if '0' as u8 <= b <= '9' as u8 {
        b - '0' as u8
    } else {
        b - 'a' as u8 + 10
    }
}

/// Every byte is written as two hexadecimal digits, the higher one first, from which it can
/// be read back.
pub proof fn law_hex_is_read_back(v: Seq<u8>, i: int)
    requires
        0 <= i < v.len(),
    ensures
        hex(v).len() == 2 * v.len(),
        hex_value(hex(v)[2 * i]) * 16 + hex_value(hex(v)[2 * i + 1]) == v[i],
        0 <= hex_value(hex(v)[2 * i]) < 16,
        0 <= hex_value(hex(v)[2 * i + 1]) < 16,
{
    assert((2 * i) / 2 == i && (2 * i + 1) / 2 == i);
    assert((2 * i) % 2 == 0 && (2 * i + 1) % 2 == 1);
}

/// The items of several values are those of each of them, in order, and the items of one
/// value are what commas part, without the blanks around them.
pub proof fn law_items(values: Seq<Seq<u8>>, more: Seq<u8>)
    ensures
        items(values.push(more)) == items(values) + items_of(more),
        is_text(more) && !more.contains(44) ==> items_of(more) == seq![trim(more)],
        !is_text(more) ==> items_of(more).len() == 0,
        is_text(more) ==> items_of(more).len() == split(more, ',' as u8).len(),
{
    assert(values.push(more).drop_last() =~= values);
    if is_text(more) && !more.contains(44) {
        lemma_found_first(more, 44);
        assert(find(more, 44) >= more.len()) by {
            if find(more, 44) < more.len() {
                assert(more[find(more, 44) as int] == 44);
            }
        }
        assert(items_of(more) =~= seq![trim(more)]);
    }
}

/// Digits are worth ten times as much one place further left, a plus sign before them says
/// nothing, and what does not fit is no number.
pub proof fn law_decimal(v: Seq<u8>, digit: u8)
    requires
        v.len() > 0,
        all_digits(v),
        '0' as u8 <= digit <= '9' as u8,
    ensures
        decimal(v) matches Some(n) ==> decimal(v.push(digit)) == if n * 10 + (digit - '0' as u8)
            <= u64::MAX {
            Some((n * 10 + (digit - '0' as u8)) as u64)
        } else {
            None
        },
        decimal(seq![digit]) == Some((digit - '0' as u8) as u64),
        decimal(seq!['+' as u8] + v) == decimal(v),
        decimal(seq![]) is None,
        decimal(seq!['-' as u8] + v) is None,
{
    let longer = v.push(digit);
    assert(longer.drop_last() =~= v);
    assert(unsigned(longer) == longer) by {
        assert(longer[0] == v[0]);
    }
    assert(unsigned(v) == v);
    assert forall|i: int| 0 <= i < longer.len() implies 48 <= #[trigger] longer[i] <= 57 by {
        if i < v.len() {
            assert(longer[i] == v[i]);
        }
    }
    let one = seq![digit];
    assert(one.drop_last() =~= Seq::<u8>::empty());
    assert(digits_value(one.drop_last()) == 0);
    let signed = seq!['+' as u8] + v;
    assert(signed.skip(1) =~= v);
    let negative = seq!['-' as u8] + v;
    assert(negative[0] == 45);
    assert(!all_digits(negative));
}

} // verus!
