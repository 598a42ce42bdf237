//! Known-answer-test files of NIST (.rsp): "key = value" lines grouped
//! into test vectors, each starting with a "count" line, with hexadecimal
//! byte strings and decimal lengths.

use vstd::prelude::*;

verus! {

/// The Unicode White_Space characters, which `str::trim` removes.
pub open spec fn is_white_space(c: char) -> bool {
    let x = c as u32;
    ||| 9 <= x <= 13
    ||| x == 32
    ||| x == 0x85
    ||| x == 0xa0
    ||| x == 0x1680
    ||| 0x2000 <= x <= 0x200a
    ||| x == 0x2028
    ||| x == 0x2029
    ||| x == 0x202f
    ||| x == 0x205f
    ||| x == 0x3000
}

fn white_space(c: char) -> (b: bool)
    ensures
        b == is_white_space(c),
{
    let x = c as u32;
    (9 <= x && x <= 13) || x == 32 || x == 0x85 || x == 0xa0 || x == 0x1680 || (0x2000 <= x && x
        <= 0x200a) || x == 0x2028 || x == 0x2029 || x == 0x202f || x == 0x205f || x == 0x3000
}

/// The number of white-space characters at the start of s.
pub open spec fn lead_ws(s: Seq<char>) -> nat
    decreases s.len(),
{
    if s.len() > 0 && is_white_space(s[0]) {
        1 + lead_ws(s.drop_first())
    } else {
        0
    }
}

/// The number of white-space characters at the end of s.
pub open spec fn trail_ws(s: Seq<char>) -> nat
    decreases s.len(),
{
    if s.len() > 0 && is_white_space(s.last()) {
        1 + trail_ws(s.drop_last())
    } else {
        0
    }
}

/// s without its leading and trailing white space (`str::trim`).
pub open spec fn trim_spec(s: Seq<char>) -> Seq<char> {
    if lead_ws(s) >= s.len() {
        Seq::empty()
    } else {
        s.subrange(lead_ws(s) as int, s.len() - trail_ws(s))
    }
}

proof fn lemma_lead_ws_bound(s: Seq<char>)
    ensures
        lead_ws(s) <= s.len(),
        lead_ws(s) < s.len() ==> !is_white_space(s[lead_ws(s) as int]),
        forall|i: int| 0 <= i < lead_ws(s) ==> is_white_space(#[trigger] s[i]),
    decreases s.len(),
{
    if s.len() > 0 && is_white_space(s[0]) {
        lemma_lead_ws_bound(s.drop_first());
        assert forall|i: int| 0 <= i < lead_ws(s) implies is_white_space(#[trigger] s[i]) by {
            if i > 0 {
                assert(s[i] == s.drop_first()[i - 1]);
            }
        }
    }
}

/// `str::trim` on a sequence of characters.
fn trim_chars(s: &[char]) -> (r: (usize, usize))
    ensures
        r.0 <= r.1 <= s@.len(),
        s@.subrange(r.0 as int, r.1 as int) == trim_spec(s@),
{
    let n = s.len();
    let mut a: usize = 0;
    assert(s@.skip(0) =~= s@);
    while a < n && white_space(s[a])
        invariant
            a <= n,
            n == s@.len(),
            lead_ws(s@) == a + lead_ws(s@.skip(a as int)),
        decreases n - a,
    {
        proof {
            assert(s@.skip(a as int).drop_first() =~= s@.skip(a + 1));
        }
        a = a + 1;
    }
    proof {
        if a < n {
            assert(s@.skip(a as int)[0] == s@[a as int]);
        }
        assert(lead_ws(s@) == a);
    }
    if a == n {
        return (n, n);
    }
    let mut b: usize = n;
    assert(s@.take(n as int) =~= s@);
    while b > a + 1 && white_space(s[b - 1])
        invariant
            a < b <= n,
            n == s@.len(),
            !is_white_space(s@[a as int]),
            trail_ws(s@) == (n - b) + trail_ws(s@.take(b as int)),
        decreases b,
    {
        proof {
            assert(s@.take(b as int).drop_last() =~= s@.take(b - 1));
            assert(s@.take(b as int).last() == s@[b - 1]);
        }
        b = b - 1;
    }
    proof {
        if b == a + 1 {
            assert(s@.take(b as int).last() == s@[a as int]);
        } else {
            assert(s@.take(b as int).last() == s@[b - 1]);
        }
        assert(trail_ws(s@.take(b as int)) == 0);
    }
    (a, b)
}

/// Number of bytes of the UTF-8 encoding of c.
pub open spec fn utf8_len(c: char) -> nat {
    let x = c as u32;
    if x < 0x80 {
        1
    } else if x < 0x800 {
        2
    } else if x < 0x10000 {
        3
    } else {
        4
    }
}

/// Number of bytes of the UTF-8 encoding of s (`str::len`).
pub open spec fn byte_len(s: Seq<char>) -> nat
    decreases s.len(),
{
    if s.len() == 0 {
        0
    } else {
        utf8_len(s[0]) + byte_len(s.drop_first())
    }
}

/// Whether s encodes to an odd number of bytes.
fn odd_byte_len(s: &[char]) -> (odd: bool)
    ensures
        odd == (byte_len(s@) % 2 == 1),
{
    let n = s.len();
    let mut odd = false;
    assert(s@.skip(0) =~= s@);
    for k in 0..n
        invariant
            n == s@.len(),
            (byte_len(s@) - byte_len(s@.skip(k as int))) % 2 == (if odd { 1int } else { 0int }),
    {
        proof {
            assert(s@.skip(k as int).drop_first() =~= s@.skip(k + 1));
            assert(s@.skip(k as int)[0] == s@[k as int]);
        }
        let x = s[k] as u32;
        if x < 0x80 || (0x800 <= x && x < 0x10000) {
            odd = !odd;
        }
    }
    proof {
        assert(s@.skip(n as int) =~= Seq::<char>::empty());
    }
    odd
}

/// The value of a hexadecimal digit (0-9, a-f, A-F).
pub open spec fn hex_digit(c: char) -> Option<u8> {
    let x = c as u32;
    if 48 <= x <= 57 {
        Some((x - 48) as u8)
    } else if 97 <= x <= 102 {
        Some((x - 87) as u8)
    } else if 65 <= x <= 70 {
        Some((x - 55) as u8)
    } else {
        None
    }
}

fn hex_digit_value(c: char) -> (r: Option<u8>)
    ensures
        r == hex_digit(c),
{
    let x = c as u32;
    if 48 <= x && x <= 57 {
        Some((x - 48) as u8)
    } else if 97 <= x && x <= 102 {
        Some((x - 87) as u8)
    } else if 65 <= x && x <= 70 {
        Some((x - 55) as u8)
    } else {
        None
    }
}

/// The byte that two hexadecimal digits give, high digit first; None when
/// either is not a hexadecimal digit.
pub open spec fn hex_pair(c0: char, c1: char) -> Option<u8> {
    match (hex_digit(c0), hex_digit(c1)) {
        (Some(a), Some(b)) => Some((16 * a + b) as u8),
        _ => None,
    }
}

/// The bytes of a hexadecimal string of even byte length, read two bytes
/// at a time: `Some(Some(bytes))`, `Some(None)` when a pair is not a
/// number, `None` when a pair would end inside a multi-byte character.
pub open spec fn hex_scan(t: Seq<char>) -> Option<Option<Seq<u8>>>
    decreases t.len(),
{
    if t.len() == 0 {
        Some(Some(Seq::empty()))
    } else if utf8_len(t[0]) == 1 {
        if t.len() < 2 || utf8_len(t[1]) != 1 {
            None
        } else {
            match hex_pair(t[0], t[1]) {
                None => Some(None),
                Some(v) => match hex_scan(t.skip(2)) {
                    Some(Some(rest)) => Some(Some(seq![v] + rest)),
                    other => other,
                },
            }
        }
    } else if utf8_len(t[0]) == 2 {
        Some(None)
    } else {
        None
    }
}

/// What `parse_hex` gives for the characters s: `Some(Ok(bytes))`,
/// `Some(Err(message))`, or `None` when it would slice inside a character.
pub open spec fn parse_hex_spec(s: Seq<char>) -> Option<Result<Seq<u8>, Seq<char>>> {
    let t = trim_spec(s);
    if t.len() == 0 {
        Some(Ok(Seq::empty()))
    } else if byte_len(t) % 2 == 1 {
        Some(Err("Hex string has odd length"@))
    } else {
        match hex_scan(t) {
            None => None,
            Some(None) => Some(Err("Invalid hex character"@)),
            Some(Some(b)) => Some(Ok(b)),
        }
    }
}

proof fn lemma_byte_len_skip(t: Seq<char>, k: int)
    requires
        0 <= k < t.len(),
    ensures
        byte_len(t.skip(k)) == utf8_len(t[k]) + byte_len(t.skip(k + 1)),
{
    assert(t.skip(k).drop_first() =~= t.skip(k + 1));
}

/// `parse_hex` on characters; None exactly where it would slice inside a
/// character.
fn parse_hex_chars(cs: &[char]) -> (r: Option<Result<Vec<u8>, &'static str>>)
    ensures
        parse_hex_spec(cs@) == match r {
            None => None,
            Some(Ok(v)) => Some(Ok(v@)),
            Some(Err(e)) => Some(Err(e@)),
        },
{
    let (a, b) = trim_chars(cs);
    let t = vstd::slice::slice_subrange(cs, a, b);
    if t.len() == 0 {
        return Some(Ok(Vec::new()));
    }
    if odd_byte_len(t) {
        return Some(Err("Hex string has odd length"));
    }
    let n = t.len();
    let mut out: Vec<u8> = Vec::new();
    let mut k: usize = 0;
    assert(t@.skip(0) =~= t@);
    assert forall|r2: Seq<u8>| out@ + r2 =~= r2 by {}
    while k < n
        invariant
            n == t@.len(),
            n > 0,
            t@ == trim_spec(cs@),
            byte_len(t@) % 2 == 0,
            k <= n,
            byte_len(t@.skip(k as int)) % 2 == 0,
            hex_scan(t@) == match hex_scan(t@.skip(k as int)) {
                Some(Some(rest)) => Some(Some(out@ + rest)),
                other => other,
            },
        decreases n - k,
    {
        let ghost rest = t@.skip(k as int);
        proof {
            lemma_byte_len_skip(t@, k as int);
            assert(rest[0] == t@[k as int]);
        }
        let c0 = t[k];
        let x0 = c0 as u32;
        if x0 >= 0x80 {
            if x0 >= 0x800 {
                proof {
                    assert(hex_scan(rest) is None);
                }
                return None;
            }
            proof {
                assert(hex_scan(rest) == Some(None::<Seq<u8>>));
            }
            return Some(Err("Invalid hex character"));
        }
        if k + 1 >= n {
            proof {
                assert(t@.skip(k + 1) =~= Seq::<char>::empty());
                assert(byte_len(Seq::<char>::empty()) == 0);
                assert(utf8_len(c0) == 1);
                assert(byte_len(rest) == 1);
            }
            return None;
        }
        proof {
            lemma_byte_len_skip(t@, k + 1);
            assert(rest[1] == t@[k + 1]);
            assert(rest.skip(2) =~= t@.skip(k + 2));
        }
        let c1 = t[k + 1];
        if (c1 as u32) >= 0x80 {
            proof {
                assert(hex_scan(rest) is None);
            }
            return None;
        }
        let v = match (hex_digit_value(c0), hex_digit_value(c1)) {
            (Some(hi), Some(lo)) => Some(16 * hi + lo),
            _ => None,
        };
        match v {
            None => {
                proof {
                    assert(hex_pair(c0, c1) is None);
                    assert(hex_scan(rest) == Some(None::<Seq<u8>>));
                }
                return Some(Err("Invalid hex character"));
            },
            Some(byte) => {
                proof {
                    assert(hex_pair(c0, c1) == Some(byte));
                }
                let ghost old_out = out@;
                out.push(byte);
                proof {
                    assert forall|r2: Seq<u8>| old_out + (seq![byte] + r2) =~= out@ + r2 by {}
                }
                k = k + 2;
            },
        }
    }
    proof {
        assert(t@.skip(n as int) =~= Seq::<char>::empty());
        assert(out@ + Seq::<u8>::empty() =~= out@);
    }
    Some(Ok(out))
}

/// The characters of a string.
fn str_chars(s: &str) -> (v: Vec<char>)
    ensures
        v@ == s@,
{
    broadcast use vstd::string::axiom_spec_iter;

    let mut v: Vec<char> = Vec::new();
    for c in it: s.chars()
        invariant
            v@ == it.seq().take(it.index() as int),
    {
        v.push(c);
    }
    v
}

/// Parses a hexadecimal string, white space around it ignored: the bytes,
/// an empty vector for an empty string, an error for an odd byte length
/// or a pair that is not two hexadecimal digits. It requires that no byte
/// pair cuts a character outside ASCII (`try_parse_hex` tests that).
pub fn parse_hex(hex: &str) -> (r: Result<Vec<u8>, &'static str>)
    requires
        parse_hex_spec(hex@) is Some,
    ensures
        parse_hex_spec(hex@) == Some(
            match r {
                Ok(v) => Ok(v@),
                Err(e) => Err(e@),
            },
        ),
{
    let cs = str_chars(hex);
    match parse_hex_chars(cs.as_slice()) {
        Some(r) => r,
        None => Err("Invalid hex character"),
    }
}

/// `parse_hex` where it is defined, and None for a string in which a byte
/// pair would cut a character outside ASCII.
pub fn try_parse_hex(hex: &str) -> (r: Option<Result<Vec<u8>, &'static str>>)
    ensures
        parse_hex_spec(hex@) == match r {
            None => None,
            Some(Ok(v)) => Some(Ok(v@)),
            Some(Err(e)) => Some(Err(e@)),
        },
{
    let cs = str_chars(hex);
    parse_hex_chars(cs.as_slice())
}

/// The fields of a test vector, as values.
pub struct KatFields {
    /// Test number.
    pub count: usize,
    /// Key generation seed.
    pub xi: Seq<u8>,
    /// Seed of the random generator.
    pub seed: Seq<u8>,
    /// Public key.
    pub pk: Seq<u8>,
    /// Secret key.
    pub sk: Seq<u8>,
    /// Message.
    pub msg: Seq<u8>,
    /// Message length.
    pub mlen: usize,
    /// Signature followed by the message.
    pub sm: Seq<u8>,
    /// Length of sm.
    pub smlen: usize,
    /// Context string.
    pub ctx: Seq<u8>,
}

/// The fields of a fresh test vector: zeros and empty byte strings.
pub open spec fn kat_fields_empty() -> KatFields {
    KatFields {
        count: 0,
        xi: Seq::empty(),
        seed: Seq::empty(),
        pk: Seq::empty(),
        sk: Seq::empty(),
        msg: Seq::empty(),
        mlen: 0,
        sm: Seq::empty(),
        smlen: 0,
        ctx: Seq::empty(),
    }
}

/// A test vector of a KAT file.
#[derive(Debug)]
pub struct KatVector {
    /// Test number.
    pub count: usize,
    /// Key generation seed (xi).
    pub xi: Vec<u8>,
    /// Seed of the random generator.
    pub seed: Vec<u8>,
    /// Public key.
    pub pk: Vec<u8>,
    /// Secret key.
    pub sk: Vec<u8>,
    /// Message to sign.
    pub msg: Vec<u8>,
    /// Message length.
    pub mlen: usize,
    /// Signature followed by the message.
    pub sm: Vec<u8>,
    /// Length of sm.
    pub smlen: usize,
    /// Context string.
    pub ctx: Vec<u8>,
}

impl View for KatVector {
    type V = KatFields;

    open spec fn view(&self) -> KatFields {
        KatFields {
            count: self.count,
            xi: self.xi@,
            seed: self.seed@,
            pk: self.pk@,
            sk: self.sk@,
            msg: self.msg@,
            mlen: self.mlen,
            sm: self.sm@,
            smlen: self.smlen,
            ctx: self.ctx@,
        }
    }
}

impl Clone for KatVector {
    fn clone(&self) -> (c: Self)
        ensures
            c@ == self@,
    {
        KatVector {
            count: self.count,
            xi: copy_bytes(&self.xi),
            seed: copy_bytes(&self.seed),
            pk: copy_bytes(&self.pk),
            sk: copy_bytes(&self.sk),
            msg: copy_bytes(&self.msg),
            mlen: self.mlen,
            sm: copy_bytes(&self.sm),
            smlen: self.smlen,
            ctx: copy_bytes(&self.ctx),
        }
    }
}

fn copy_bytes(v: &[u8]) -> (c: Vec<u8>)
    ensures
        c@ == v@,
{
    let mut c: Vec<u8> = Vec::new();
    crate::symmetric::append_bytes(&mut c, v);
    c
}

impl KatVector {
    /// A test vector with every field zero or empty.
    pub fn new() -> (v: Self)
        ensures
            v@ == kat_fields_empty(),
    {
        KatVector {
            count: 0,
            xi: Vec::new(),
            seed: Vec::new(),
            pk: Vec::new(),
            sk: Vec::new(),
            msg: Vec::new(),
            mlen: 0,
            sm: Vec::new(),
            smlen: 0,
            ctx: Vec::new(),
        }
    }

    /// The signature part of sm: its first smlen - mlen bytes.
    pub fn signature(&self) -> (sig: Vec<u8>)
        requires
            self.mlen <= self.smlen,
            self.smlen - self.mlen <= self.sm@.len(),
        ensures
            sig@ == self.sm@.take(self.smlen - self.mlen),
    {
        let sig_len = self.smlen - self.mlen;
        copy_bytes(vstd::slice::slice_subrange(self.sm.as_slice(), 0, sig_len))
    }

    /// The message part of sm: what follows its first smlen - mlen bytes.
    pub fn message_from_sm(&self) -> (msg: Vec<u8>)
        requires
            self.mlen <= self.smlen,
            self.smlen - self.mlen <= self.sm@.len(),
        ensures
            msg@ == self.sm@.skip(self.smlen - self.mlen),
    {
        let sig_len = self.smlen - self.mlen;
        copy_bytes(vstd::slice::slice_subrange(self.sm.as_slice(), sig_len, self.sm.len()))
    }
}

impl Default for KatVector {
    fn default() -> (v: Self)
        ensures
            v@ == kat_fields_empty(),
    {
        KatVector::new()
    }
}

/// The index of the first c in s, or the length of s when there is none.
pub open spec fn first_index_of(s: Seq<char>, c: char) -> nat
    decreases s.len(),
{
    if s.len() == 0 {
        0
    } else if s[0] == c {
        0
    } else {
        1 + first_index_of(s.drop_first(), c)
    }
}

fn find_char(s: &[char], c: char) -> (e: usize)
    ensures
        e == first_index_of(s@, c),
        e <= s@.len(),
{
    let n = s.len();
    let mut e: usize = 0;
    assert(s@.skip(0) =~= s@);
    while e < n && s[e] != c
        invariant
            e <= n,
            n == s@.len(),
            first_index_of(s@, c) == e + first_index_of(s@.skip(e as int), c),
        decreases n - e,
    {
        proof {
            assert(s@.skip(e as int).drop_first() =~= s@.skip(e + 1));
        }
        e = e + 1;
    }
    proof {
        if e < n {
            assert(s@.skip(e as int)[0] == s@[e as int]);
        }
    }
    e
}

/// Whether c is an ASCII decimal digit.
pub open spec fn is_dec_digit(c: char) -> bool {
    48 <= c as u32 <= 57
}

/// The number written by the decimal digits d.
pub open spec fn dec_value(d: Seq<char>) -> nat
    decreases d.len(),
{
    if d.len() == 0 {
        0
    } else {
        dec_value(d.drop_last()) * 10 + (d.last() as u32 - 48) as nat
    }
}

/// The digits of a decimal number: v without one leading '+'.
pub open spec fn usize_digits(v: Seq<char>) -> Seq<char> {
    if v.len() > 0 && v[0] == '+' {
        v.drop_first()
    } else {
        v
    }
}

/// Whether every character of d is a decimal digit.
pub open spec fn all_dec_digits(d: Seq<char>) -> bool {
    forall|i: int| 0 <= i < d.len() ==> is_dec_digit(#[trigger] d[i])
}

/// `usize::from_str`: an optional '+' and at least one decimal digit,
/// the number not above usize::MAX.
pub open spec fn parse_usize_spec(v: Seq<char>) -> Option<usize> {
    let d = usize_digits(v);
    if d.len() == 0 || !all_dec_digits(d) {
        None
    } else if dec_value(d) > usize::MAX {
        None
    } else {
        Some(dec_value(d) as usize)
    }
}

proof fn lemma_dec_value_grows(d: Seq<char>, k: int)
    requires
        0 <= k <= d.len(),
        forall|i: int| 0 <= i < d.len() ==> is_dec_digit(#[trigger] d[i]),
    ensures
        dec_value(d.take(k)) <= dec_value(d),
    decreases d.len(),
{
    if k < d.len() {
        assert(d.drop_last().take(k) =~= d.take(k));
        lemma_dec_value_grows(d.drop_last(), k);
    } else {
        assert(d.take(k) =~= d);
    }
}

fn parse_usize(v: &[char]) -> (r: Option<usize>)
    ensures
        r == parse_usize_spec(v@),
{
    let n = v.len();
    if n == 0 {
        return None;
    }
    let start: usize = if v[0] == '+' {
        1
    } else {
        0
    };
    let ghost d = v@.skip(start as int);
    assert(d =~= usize_digits(v@));
    if start >= n {
        return None;
    }
    let mut acc: usize = 0;
    let mut i: usize = start;
    assert(d.take(0) =~= Seq::<char>::empty());
    while i < n
        invariant
            start <= i <= n,
            n == v@.len(),
            d == v@.skip(start as int),
            d == usize_digits(v@),
            forall|j: int| 0 <= j < i - start ==> is_dec_digit(#[trigger] d[j]),
            acc as nat == dec_value(d.take(i - start)),
        decreases n - i,
    {
        let c = v[i] as u32;
        assert(d[i - start] == v@[i as int]);
        if c < 48 || c > 57 {
            assert(!is_dec_digit(d[i - start]));
            return None;
        }
        let dig: usize = (c - 48) as usize;
        proof {
            assert(d.take(i - start + 1).drop_last() =~= d.take(i - start));
            assert(d.take(i - start + 1).last() == v@[i as int]);
        }
        if acc > (usize::MAX - dig) / 10 {
            proof {
                assert(acc * 10 + dig > usize::MAX) by (nonlinear_arith)
                    requires
                        acc > (usize::MAX - dig) / 10,
                        dig <= 9,
                ;
                assert(dec_value(d.take(i - start + 1)) == acc * 10 + dig);
                if all_dec_digits(d) {
                    lemma_dec_value_grows(d, i - start + 1);
                }
            }
            return None;
        }
        assert(acc * 10 + dig <= usize::MAX) by (nonlinear_arith)
            requires
                acc <= (usize::MAX - dig) / 10,
                dig <= 9,
        ;
        acc = acc * 10 + dig;
        i = i + 1;
    }
    assert(d.take(n - start) =~= d);
    Some(acc)
}

fn same_chars(a: &[char], b: &[char]) -> (r: bool)
    ensures
        r == (a@ == b@),
{
    if a.len() != b.len() {
        return false;
    }
    let n = a.len();
    for i in 0..n
        invariant
            n == a@.len(),
            n == b@.len(),
            forall|j: int| 0 <= j < i ==> a@[j] == b@[j],
    {
        if a[i] != b[i] {
            return false;
        }
    }
    assert(a@ =~= b@);
    true
}

/// The field that a key names: 0 count, 1 xi, 2 seed, 3 pk, 4 sk, 5 msg,
/// 6 mlen, 7 sm, 8 smlen, 9 ctx; 10 for any other key.
pub open spec fn kat_key(k: Seq<char>) -> u8 {
    if k == seq!['c', 'o', 'u', 'n', 't'] {
        0
    } else if k == seq!['x', 'i'] {
        1
    } else if k == seq!['s', 'e', 'e', 'd'] {
        2
    } else if k == seq!['p', 'k'] {
        3
    } else if k == seq!['s', 'k'] {
        4
    } else if k == seq!['m', 's', 'g'] {
        5
    } else if k == seq!['m', 'l', 'e', 'n'] {
        6
    } else if k == seq!['s', 'm'] {
        7
    } else if k == seq!['s', 'm', 'l', 'e', 'n'] {
        8
    } else if k == seq!['c', 't', 'x'] {
        9
    } else {
        10
    }
}

fn key_id(k: &[char]) -> (id: u8)
    ensures
        id == kat_key(k@),
{
    let w0 = ['c', 'o', 'u', 'n', 't'];
    let w1 = ['x', 'i'];
    let w2 = ['s', 'e', 'e', 'd'];
    let w3 = ['p', 'k'];
    let w4 = ['s', 'k'];
    let w5 = ['m', 's', 'g'];
    let w6 = ['m', 'l', 'e', 'n'];
    let w7 = ['s', 'm'];
    let w8 = ['s', 'm', 'l', 'e', 'n'];
    let w9 = ['c', 't', 'x'];
    assert(w0@ =~= seq!['c', 'o', 'u', 'n', 't']);
    assert(w1@ =~= seq!['x', 'i']);
    assert(w2@ =~= seq!['s', 'e', 'e', 'd']);
    assert(w3@ =~= seq!['p', 'k']);
    assert(w4@ =~= seq!['s', 'k']);
    assert(w5@ =~= seq!['m', 's', 'g']);
    assert(w6@ =~= seq!['m', 'l', 'e', 'n']);
    assert(w7@ =~= seq!['s', 'm']);
    assert(w8@ =~= seq!['s', 'm', 'l', 'e', 'n']);
    assert(w9@ =~= seq!['c', 't', 'x']);
    if same_chars(k, &w0) {
        0
    } else if same_chars(k, &w1) {
        1
    } else if same_chars(k, &w2) {
        2
    } else if same_chars(k, &w3) {
        3
    } else if same_chars(k, &w4) {
        4
    } else if same_chars(k, &w5) {
        5
    } else if same_chars(k, &w6) {
        6
    } else if same_chars(k, &w7) {
        7
    } else if same_chars(k, &w8) {
        8
    } else if same_chars(k, &w9) {
        9
    } else {
        10
    }
}

/// The state of the parser between lines: the finished vectors, the one
/// being read, and whether a "count" line has started one.
pub struct KatParse {
    /// Finished vectors.
    pub vectors: Seq<KatFields>,
    /// The vector being read.
    pub current: KatFields,
    /// Whether a vector has been started.
    pub in_vector: bool,
}

/// The fields f with the byte field `id` (1 to 5, 7 or 9) replaced by b.
pub open spec fn with_bytes(f: KatFields, id: u8, b: Seq<u8>) -> KatFields {
    KatFields {
        count: f.count,
        xi: if id == 1 { b } else { f.xi },
        seed: if id == 2 { b } else { f.seed },
        pk: if id == 3 { b } else { f.pk },
        sk: if id == 4 { b } else { f.sk },
        msg: if id == 5 { b } else { f.msg },
        mlen: f.mlen,
        sm: if id == 7 { b } else { f.sm },
        smlen: f.smlen,
        ctx: if id == 9 { b } else { f.ctx },
    }
}

/// One line of a KAT file: white space around it ignored, empty lines,
/// comments ('#') and lines without '=' skipped; otherwise "key = value".
/// "count" ends the vector being read and starts a new one; the lengths
/// are decimal, the other known fields hexadecimal; unknown keys are
/// skipped. `None` when the hexadecimal parse would slice inside a
/// character.
pub open spec fn kat_line(st: KatParse, line: Seq<char>) -> Option<Result<KatParse, Seq<char>>> {
    let t = trim_spec(line);
    let e = first_index_of(t, '=');
    if t.len() == 0 || t[0] == '#' || e >= t.len() {
        Some(Ok(st))
    } else {
        let id = kat_key(trim_spec(t.take(e as int)));
        let value = trim_spec(t.skip(e as int + 1));
        if id == 0 {
            match parse_usize_spec(value) {
                None => Some(Err("Invalid count"@)),
                Some(c) => Some(
                    Ok(
                        KatParse {
                            vectors: if st.in_vector {
                                st.vectors.push(st.current)
                            } else {
                                st.vectors
                            },
                            current: KatFields { count: c, ..kat_fields_empty() },
                            in_vector: true,
                        },
                    ),
                ),
            }
        } else if id == 6 {
            match parse_usize_spec(value) {
                None => Some(Err("Invalid mlen"@)),
                Some(m) => Some(Ok(KatParse { current: KatFields { mlen: m, ..st.current }, ..st })),
            }
        } else if id == 8 {
            match parse_usize_spec(value) {
                None => Some(Err("Invalid smlen"@)),
                Some(m) => Some(Ok(KatParse { current: KatFields { smlen: m, ..st.current }, ..st })),
            }
        } else if id == 10 {
            Some(Ok(st))
        } else {
            match parse_hex_spec(value) {
                None => None,
                Some(Err(m)) => Some(Err(m)),
                Some(Ok(b)) => Some(Ok(KatParse { current: with_bytes(st.current, id, b), ..st })),
            }
        }
    }
}

/// The lines of cs (separated by '\n'), read in turn from the state st.
pub open spec fn kat_run(cs: Seq<char>, st: KatParse) -> Option<Result<KatParse, Seq<char>>>
    decreases cs.len(),
{
    let e = first_index_of(cs, '\n');
    match kat_line(st, cs.take(e as int)) {
        None => None,
        Some(Err(m)) => Some(Err(m)),
        Some(Ok(st2)) => if e >= cs.len() {
            Some(Ok(st2))
        } else {
            kat_run(cs.skip(e as int + 1), st2)
        },
    }
}

/// What `parse_kat_file` gives for the text cs: the test vectors, an error
/// message, or `None` when it would slice inside a character.
pub open spec fn parse_kat_spec(cs: Seq<char>) -> Option<Result<Seq<KatFields>, Seq<char>>> {
    let init = KatParse { vectors: Seq::empty(), current: kat_fields_empty(), in_vector: false };
    match kat_run(cs, init) {
        None => None,
        Some(Err(m)) => Some(Err(m)),
        Some(Ok(st)) => Some(
            Ok(
                if st.in_vector {
                    st.vectors.push(st.current)
                } else {
                    st.vectors
                },
            ),
        ),
    }
}

/// The fields of each vector.
pub open spec fn kat_views(v: Seq<KatVector>) -> Seq<KatFields> {
    v.map_values(|x: KatVector| x@)
}

/// The parser state held by the three variables of `parse_kat_file`.
pub open spec fn parse_state(vectors: Seq<KatVector>, current: KatFields, in_vector: bool) -> KatParse {
    KatParse { vectors: kat_views(vectors), current, in_vector }
}

fn process_line(vectors: &mut Vec<KatVector>, current: &mut KatVector, in_vector: &mut bool, line: &[char]) -> (r:
    Option<Result<(), &'static str>>)
    ensures
        kat_line(parse_state(old(vectors)@, old(current)@, *old(in_vector)), line@) == match r {
            None => None,
            Some(Ok(_)) => Some(Ok(parse_state(final(vectors)@, final(current)@, *final(in_vector)))),
            Some(Err(e)) => Some(Err(e@)),
        },
{
    let ghost st = parse_state(vectors@, current@, *in_vector);
    let (a, b) = trim_chars(line);
    let t = vstd::slice::slice_subrange(line, a, b);
    if t.len() == 0 || t[0] == '#' {
        return Some(Ok(()));
    }
    let e = find_char(t, '=');
    if e >= t.len() {
        return Some(Ok(()));
    }
    let kpart = vstd::slice::slice_subrange(t, 0, e);
    let (ka, kb) = trim_chars(kpart);
    let key = vstd::slice::slice_subrange(kpart, ka, kb);
    let vpart = vstd::slice::slice_subrange(t, e + 1, t.len());
    let (va, vb) = trim_chars(vpart);
    let value = vstd::slice::slice_subrange(vpart, va, vb);
    assert(kpart@ =~= t@.take(e as int));
    assert(vpart@ =~= t@.skip(e + 1));
    let id = key_id(key);
    if id == 0 {
        match parse_usize(value) {
            None => Some(Err("Invalid count")),
            Some(c) => {
                if *in_vector {
                    let mut done = KatVector::new();
                    core::mem::swap(current, &mut done);
                    vectors.push(done);
                    assert(kat_views(vectors@) =~= st.vectors.push(st.current));
                }
                let mut fresh = KatVector::new();
                fresh.count = c;
                *current = fresh;
                *in_vector = true;
                Some(Ok(()))
            },
        }
    } else if id == 6 {
        match parse_usize(value) {
            None => Some(Err("Invalid mlen")),
            Some(m) => {
                current.mlen = m;
                Some(Ok(()))
            },
        }
    } else if id == 8 {
        match parse_usize(value) {
            None => Some(Err("Invalid smlen")),
            Some(m) => {
                current.smlen = m;
                Some(Ok(()))
            },
        }
    } else if id == 10 {
        Some(Ok(()))
    } else {
        match parse_hex_chars(value) {
            None => None,
            Some(Err(m)) => Some(Err(m)),
            Some(Ok(bytes)) => {
                if id == 1 {
                    current.xi = bytes;
                } else if id == 2 {
                    current.seed = bytes;
                } else if id == 3 {
                    current.pk = bytes;
                } else if id == 4 {
                    current.sk = bytes;
                } else if id == 5 {
                    current.msg = bytes;
                } else if id == 7 {
                    current.sm = bytes;
                } else {
                    current.ctx = bytes;
                }
                Some(Ok(()))
            },
        }
    }
}

/// `parse_kat_file` on characters; None exactly where a hexadecimal parse
/// would slice inside a character.
fn parse_kat_chars(cs: &Vec<char>) -> (r: Option<Result<Vec<KatVector>, &'static str>>)
    ensures
        parse_kat_spec(cs@) == match r {
            None => None,
            Some(Ok(v)) => Some(Ok(kat_views(v@))),
            Some(Err(e)) => Some(Err(e@)),
        },
{
    let n = cs.len();
    let mut vectors: Vec<KatVector> = Vec::new();
    let mut current = KatVector::new();
    let mut in_vector = false;
    let mut start: usize = 0;
    let ghost init = KatParse { vectors: Seq::empty(), current: kat_fields_empty(), in_vector: false };
    assert(kat_views(vectors@) =~= Seq::<KatFields>::empty());
    assert(cs@.skip(0) =~= cs@);
    loop
        invariant_except_break
            n == cs@.len(),
            start <= n,
            kat_run(cs@, init) == kat_run(cs@.skip(start as int), parse_state(vectors@, current@, in_vector)),
        invariant
            init == (KatParse { vectors: Seq::empty(), current: kat_fields_empty(), in_vector: false }),
        ensures
            kat_run(cs@, init) == Some(Ok::<KatParse, Seq<char>>(parse_state(vectors@, current@, in_vector))),
        decreases n - start,
    {
        let rest = vstd::slice::slice_subrange(cs.as_slice(), start, n);
        let e = find_char(rest, '\n');
        let line = vstd::slice::slice_subrange(rest, 0, e);
        assert(rest@ =~= cs@.skip(start as int));
        assert(line@ =~= rest@.take(e as int));
        let ghost before = parse_state(vectors@, current@, in_vector);
        match process_line(&mut vectors, &mut current, &mut in_vector, line) {
            None => {
                assert(kat_run(rest@, before) is None);
                return None;
            },
            Some(Err(m)) => {
                assert(kat_run(rest@, before) == Some(Err::<KatParse, Seq<char>>(m@)));
                return Some(Err(m));
            },
            Some(Ok(())) => {},
        }
        if e >= rest.len() {
            break;
        }
        assert(rest@.skip(e + 1) =~= cs@.skip(start + e + 1));
        start = start + e + 1;
    }
    let ghost done = parse_state(vectors@, current@, in_vector);
    if in_vector {
        vectors.push(current);
        assert(kat_views(vectors@) =~= done.vectors.push(done.current));
    }
    Some(Ok(vectors))
}

/// Parses a KAT file: the test vectors in order, each one started by a
/// "count" line; an error message for a count or length that is not a
/// decimal number, or a byte string that `parse_hex` rejects. It requires
/// that no hexadecimal byte pair cuts a character outside ASCII
/// (`try_parse_kat_file` tests that).
pub fn parse_kat_file(content: &str) -> (r: Result<Vec<KatVector>, &'static str>)
    requires
        parse_kat_spec(content@) is Some,
    ensures
        parse_kat_spec(content@) == Some(
            match r {
                Ok(v) => Ok(kat_views(v@)),
                Err(e) => Err(e@),
            },
        ),
{
    let cs = str_chars(content);
    match parse_kat_chars(&cs) {
        Some(r) => r,
        None => Err("Invalid hex character"),
    }
}

/// `parse_kat_file` where it is defined, and None for a text in which a
/// hexadecimal byte pair would cut a character outside ASCII.
pub fn try_parse_kat_file(content: &str) -> (r: Option<Result<Vec<KatVector>, &'static str>>)
    ensures
        parse_kat_spec(content@) == match r {
            None => None,
            Some(Ok(v)) => Some(Ok(kat_views(v@))),
            Some(Err(e)) => Some(Err(e@)),
        },
{
    let cs = str_chars(content);
    parse_kat_chars(&cs)
}

} // verus!
