//! Address and mask helpers used by the provisioning sources.
use vstd::prelude::*;
use crate::text::{
    chars_of, dec_digits, message, parse_unsigned, parse_unsigned_chars, split_chars, split_on,
    string_from_chars, to_lowercase, u64_to_dec, unicode_lowercase, views_of,
};

verus! {

/// Why an address helper refused its input; each variant carries the text it refused.
#[derive(Debug, PartialEq, Eq)]
pub enum NetError {
    /// The netmask does not have four dot-separated parts.
    InvalidNetmaskFormat(String),
    /// A netmask part is not a number from 0 to 255.
    InvalidOctet(String),
    /// A prefix length above 32.
    InvalidPrefixLength(u8),
    /// The text after `/` is not a number from 0 to 255.
    InvalidCidrPrefix(String),
}

/// Number of set bits of `n`.
pub open spec fn popcount(n: nat) -> nat
    decreases n,
{
    if n == 0 {
        0
    } else {
        n % 2 + popcount(n / 2)
    }
}

/// Sum of the set bits of the octets named by the given parts.
pub open spec fn octet_bits(parts: Seq<Seq<char>>) -> nat
    decreases parts.len(),
{
    if parts.len() == 0 {
        0
    } else {
        octet_bits(parts.drop_last()) + popcount(parse_unsigned(parts.last(), 255).unwrap())
    }
}

/// Index of the first part that is not an octet, if any.
pub open spec fn first_bad_octet(parts: Seq<Seq<char>>) -> Option<int>
    decreases parts.len(),
{
    if parts.len() == 0 {
        None
    } else {
        match first_bad_octet(parts.drop_last()) {
            Some(i) => Some(i),
            None => if parse_unsigned(parts.last(), 255) is None {
                Some(parts.len() - 1)
            } else {
                None
            },
        }
    }
}

/// What `netmask_to_cidr` gives for a netmask text.
pub open spec fn netmask_to_cidr_spec(netmask: Seq<char>) -> Result<nat, NetErrorKind> {
    let parts = split_on(netmask, '.');
    if parts.len() != 4 {
        Err(NetErrorKind::Format(netmask))
    } else {
        match first_bad_octet(parts) {
            Some(i) => Err(NetErrorKind::Octet(parts[i])),
            None => Ok(octet_bits(parts)),
        }
    }
}

/// The model of a `NetError`: its variant and the text it carries.
pub enum NetErrorKind {
    Format(Seq<char>),
    Octet(Seq<char>),
    Prefix(nat),
    Cidr(Seq<char>),
}

/// The text of a refusal, as the address helpers report it.
pub open spec fn net_error_text(k: NetErrorKind) -> Seq<char> {
    match k {
        NetErrorKind::Format(s) => "Invalid netmask format: "@ + s,
        NetErrorKind::Octet(s) => "Invalid octet in netmask: "@ + s,
        NetErrorKind::Prefix(p) => "Invalid CIDR prefix length: "@ + dec_digits(p),
        NetErrorKind::Cidr(s) => "Invalid CIDR prefix in: "@ + s,
    }
}

impl NetError {
    /// The text of the refusal, as `net_error_text` says.
    pub fn message(&self) -> (r: String)
        ensures
            r@ == net_error_text(self.kind()),
    {
        match self {
            NetError::InvalidNetmaskFormat(s) => message("Invalid netmask format: ", &chars_of(s)),
            NetError::InvalidOctet(s) => message("Invalid octet in netmask: ", &chars_of(s)),
            NetError::InvalidPrefixLength(p) => message("Invalid CIDR prefix length: ", &u64_to_dec(*p as u64)),
            NetError::InvalidCidrPrefix(s) => message("Invalid CIDR prefix in: ", &chars_of(s)),
        }
    }

    pub open spec fn kind(&self) -> NetErrorKind {
        match self {
            NetError::InvalidNetmaskFormat(s) => NetErrorKind::Format(s@),
            NetError::InvalidOctet(s) => NetErrorKind::Octet(s@),
            NetError::InvalidPrefixLength(p) => NetErrorKind::Prefix(*p as nat),
            NetError::InvalidCidrPrefix(s) => NetErrorKind::Cidr(s@),
        }
    }
}

fn count_ones_u8(v: u8) -> (r: u8)
    ensures
        r as nat == popcount(v as nat),
        r <= 8,
{
    let mut n: u8 = v;
    let mut c: u8 = 0;
    let mut i: u8 = 0;
    proof {
        reveal_pow2_u8(8);
    }
    while n > 0
        invariant
            c as nat + popcount(n as nat) == popcount(v as nat),
            c <= i,
            i <= 8,
            n < pow2_u8(8 - i),
        decreases n,
    {
        proof {
            reveal_pow2_u8(8 - i);
        }
        c = c + n % 2;
        n = n / 2;
        i = i + 1;
    }
    c
}

pub open spec fn pow2_u8(k: int) -> nat
    decreases k,
{
    if k <= 0 {
        1
    } else {
        2 * pow2_u8(k - 1)
    }
}

proof fn reveal_pow2_u8(k: int)
    ensures
        k <= 0 ==> pow2_u8(k) == 1,
        k > 0 ==> pow2_u8(k) == 2 * pow2_u8(k - 1),
        k == 8 ==> pow2_u8(k) == 256,
{
    if k == 8 {
        assert(pow2_u8(0) == 1);
        assert(pow2_u8(1) == 2);
        assert(pow2_u8(2) == 4);
        assert(pow2_u8(3) == 8);
        assert(pow2_u8(4) == 16);
        assert(pow2_u8(5) == 32);
        assert(pow2_u8(6) == 64);
        assert(pow2_u8(7) == 128);
        assert(pow2_u8(8) == 256);
    }
}

/// Converts a dotted netmask such as `255.255.255.0` to its prefix length.
pub fn netmask_to_cidr(netmask: &str) -> (r: Result<u8, NetError>)
    ensures
        match netmask_to_cidr_spec(netmask@) {
            Ok(n) => r == Ok::<u8, NetError>(n as u8),
            Err(k) => r is Err && r->Err_0.kind() == k,
        },
{
    let chars = chars_of(netmask);
    let parts = split_chars(&chars, '.');
    if parts.len() != 4 {
        return Err(NetError::InvalidNetmaskFormat(string_from_chars(&chars)));
    }
    let ghost ps = views_of(parts@);
    let mut prefix_len: u8 = 0;
    let mut i: usize = 0;
    while i < 4
        invariant
            parts.len() == 4,
            ps == views_of(parts@),
            ps == split_on(netmask@, '.'),
            i <= 4,
            first_bad_octet(ps.subrange(0, i as int)) is None,
            prefix_len as nat == octet_bits(ps.subrange(0, i as int)),
            prefix_len <= 8 * i,
        decreases 4 - i,
    {
        proof {
            assert(ps.subrange(0, i as int + 1).drop_last() =~= ps.subrange(0, i as int));
            assert(ps.subrange(0, i as int + 1).last() == parts@[i as int]@);
        }
        match parse_unsigned_chars(&parts[i], 255) {
            None => {
                proof {
                    assert(ps[i as int] == parts@[i as int]@);
                    lemma_first_bad_prefix(ps, i as int);
                    assert(ps == split_on(netmask@, '.'));
                    assert(netmask_to_cidr_spec(netmask@) == Err::<nat, NetErrorKind>(NetErrorKind::Octet(ps[i as int])));
                }
                return Err(NetError::InvalidOctet(string_from_chars(&parts[i])));
            }
            Some(octet) => {
                let ones = count_ones_u8(octet as u8);
                prefix_len = prefix_len + ones;
            }
        }
        i = i + 1;
    }
    assert(ps.subrange(0, 4) =~= ps);
    Ok(prefix_len)
}

proof fn lemma_first_bad_prefix(ps: Seq<Seq<char>>, i: int)
    requires
        0 <= i < ps.len(),
        first_bad_octet(ps.subrange(0, i)) is None,
        parse_unsigned(ps[i], 255) is None,
    ensures
        first_bad_octet(ps) == Some(i),
    decreases ps.len(),
{
    if i < ps.len() - 1 {
        assert(ps.drop_last().subrange(0, i) =~= ps.subrange(0, i));
        assert(ps.drop_last()[i] == ps[i]);
        lemma_first_bad_prefix(ps.drop_last(), i);
    } else {
        assert(ps.drop_last() =~= ps.subrange(0, i));
    }
}

/// Number of leading set bits falling in octet `k` of a mask with `p` leading set bits.
pub open spec fn octet_ones(p: nat, k: nat) -> nat {
    if p >= 8 * (k + 1) {
        8
    } else if p <= 8 * k {
        0
    } else {
        (p - 8 * k) as nat
    }
}

/// Value of octet `k` of a mask whose first `p` of 32 bits are set.
pub open spec fn mask_octet(p: nat, k: nat) -> nat {
    (256 - pow2_u8(8 - octet_ones(p, k))) as nat
}

/// The first `k` octets of the mask text, dot-separated.
pub open spec fn netmask_prefix(p: nat, k: nat) -> Seq<char>
    decreases k,
{
    if k == 0 {
        Seq::empty()
    } else if k == 1 {
        dec_digits(mask_octet(p, 0))
    } else {
        netmask_prefix(p, (k - 1) as nat) + seq!['.'] + dec_digits(mask_octet(p, (k - 1) as nat))
    }
}

/// The dotted text of the mask whose first `p` bits are set.
pub open spec fn netmask_text(p: nat) -> Seq<char> {
    dec_digits(mask_octet(p, 0)) + seq!['.'] + dec_digits(mask_octet(p, 1)) + seq!['.']
        + dec_digits(mask_octet(p, 2)) + seq!['.'] + dec_digits(mask_octet(p, 3))
}

fn mask_octet_exec(p: u8, k: u8) -> (r: u64)
    requires
        p <= 32,
        k < 4,
    ensures
        r as nat == mask_octet(p as nat, k as nat),
{
    let ones: u8 = if p >= 8 * (k + 1) {
        8
    } else if p <= 8 * k {
        0
    } else {
        p - 8 * k
    };
    let zeros: u8 = 8 - ones;
    let mut pw: u64 = 1;
    let mut j: u8 = 0;
    while j < zeros
        invariant
            j <= zeros <= 8,
            pw as nat == pow2_u8(j as int),
            pw <= 256,
        decreases zeros - j,
    {
        proof {
            reveal_pow2_u8(j as int + 1);
            lemma_pow2_u8_bound(j as int + 1);
        }
        pw = pw * 2;
        j = j + 1;
    }
    256 - pw
}

proof fn lemma_pow2_u8_bound(k: int)
    requires
        k <= 8,
    ensures
        1 <= pow2_u8(k) <= 256,
    decreases k,
{
    if k > 0 {
        lemma_pow2_u8_bound(k - 1);
        reveal_pow2_u8(k);
        if k == 8 {
            reveal_pow2_u8(8);
        } else {
            lemma_pow2_u8_mono(k, 8);
            reveal_pow2_u8(8);
        }
    }
}

proof fn lemma_pow2_u8_mono(a: int, b: int)
    requires
        0 <= a <= b,
    ensures
        pow2_u8(a) <= pow2_u8(b),
    decreases b - a,
{
    if a < b {
        lemma_pow2_u8_mono(a, b - 1);
        reveal_pow2_u8(b);
        lemma_pow2_u8_pos(b - 1);
    }
}

proof fn lemma_pow2_u8_pos(a: int)
    ensures
        pow2_u8(a) >= 1,
    decreases a,
{
    if a > 0 {
        lemma_pow2_u8_pos(a - 1);
    }
}

/// Converts a prefix length to a dotted netmask such as `255.255.255.0`; a
/// prefix of zero gives `0.0.0.0`.
pub fn cidr_to_netmask(prefix_len: u8) -> (r: Result<String, NetError>)
    ensures
        prefix_len > 32 ==> r == Err::<String, NetError>(NetError::InvalidPrefixLength(prefix_len)),
        prefix_len <= 32 ==> r is Ok && r->Ok_0@ == netmask_text(prefix_len as nat),
{
    if prefix_len > 32 {
        return Err(NetError::InvalidPrefixLength(prefix_len));
    }
    let mut out: Vec<char> = Vec::new();
    let mut k: u8 = 0;
    while k < 4
        invariant
            prefix_len <= 32,
            k <= 4,
            out@ == netmask_prefix(prefix_len as nat, k as nat),
        decreases 4 - k,
    {
        let ghost before = out@;
        if k > 0 {
            out.push('.');
        }
        let o = mask_octet_exec(prefix_len, k);
        let digits = u64_to_dec(o);
        let mut j: usize = 0;
        let ghost mid = out@;
        while j < digits.len()
            invariant
                j <= digits.len(),
                out@ == mid + digits@.subrange(0, j as int),
            decreases digits.len() - j,
        {
            out.push(digits[j]);
            j = j + 1;
        }
        proof {
            assert(digits@.subrange(0, digits.len() as int) =~= digits@);
            if k == 0 {
                assert(out@ =~= netmask_prefix(prefix_len as nat, 1));
            } else {
                assert(mid =~= before + seq!['.']);
                assert(out@ =~= netmask_prefix(prefix_len as nat, k as nat + 1));
            }
        }
        k = k + 1;
    }
    proof {
        reveal_with_fuel(netmask_prefix, 5);
    }
    assert(netmask_prefix(prefix_len as nat, 4) =~= netmask_text(prefix_len as nat));
    Ok(string_from_chars(&out))
}

/// Index of the first `c` in `s`, if any.
pub open spec fn find_char(s: Seq<char>, c: char) -> Option<int>
    decreases s.len(),
{
    if s.len() == 0 {
        None
    } else {
        match find_char(s.drop_last(), c) {
            Some(i) => Some(i),
            None => if s.last() == c {
                Some(s.len() - 1)
            } else {
                None
            },
        }
    }
}

/// First index of `c` in a text.
pub fn find_char_exec(s: &Vec<char>, c: char) -> (r: Option<usize>)
    ensures
        r is None <==> find_char(s@, c) is None,
        r matches Some(i) ==> find_char(s@, c) == Some(i as int) && i < s.len() && s@[i as int] == c,
{
    let mut i: usize = 0;
    while i < s.len()
        invariant
            i <= s.len(),
            find_char(s@.subrange(0, i as int), c) is None,
        decreases s.len() - i,
    {
        proof {
            assert(s@.subrange(0, i as int + 1).drop_last() =~= s@.subrange(0, i as int));
        }
        if s[i] == c {
            proof {
                lemma_find_char_prefix(s@, i as int, c);
            }
            return Some(i);
        }
        i = i + 1;
    }
    assert(s@.subrange(0, s.len() as int) =~= s@);
    None
}

proof fn lemma_find_char_prefix(s: Seq<char>, i: int, c: char)
    requires
        0 <= i < s.len(),
        find_char(s.subrange(0, i), c) is None,
        s[i] == c,
    ensures
        find_char(s, c) == Some(i),
    decreases s.len(),
{
    if i < s.len() - 1 {
        assert(s.drop_last().subrange(0, i) =~= s.subrange(0, i));
        assert(s.drop_last()[i] == s[i]);
        lemma_find_char_prefix(s.drop_last(), i, c);
    } else {
        assert(s.drop_last() =~= s.subrange(0, i));
    }
}

/// What `parse_ip_cidr` gives: the text before the first `/` and the prefix
/// after it, or the whole text and no prefix.
pub open spec fn parse_ip_cidr_spec(a: Seq<char>) -> Result<(Seq<char>, Option<nat>), NetErrorKind> {
    match find_char(a, '/') {
        None => Ok((a, None)),
        Some(pos) => match parse_unsigned(a.subrange(pos + 1, a.len() as int), 255) {
            Some(p) => Ok((a.subrange(0, pos), Some(p))),
            None => Err(NetErrorKind::Cidr(a)),
        },
    }
}

fn copy_range(s: &Vec<char>, from: usize, to: usize) -> (r: Vec<char>)
    requires
        from <= to <= s.len(),
    ensures
        r@ == s@.subrange(from as int, to as int),
{
    let mut r: Vec<char> = Vec::new();
    let mut i = from;
    while i < to
        invariant
            from <= i <= to <= s.len(),
            r@ == s@.subrange(from as int, i as int),
        decreases to - i,
    {
        r.push(s[i]);
        i = i + 1;
    }
    r
}

/// Splits an address such as `192.168.1.10/24` into the address and its prefix length.
pub fn parse_ip_cidr(address: &str) -> (r: Result<(String, Option<u8>), NetError>)
    ensures
        match parse_ip_cidr_spec(address@) {
            Ok((ip, p)) => r is Ok && r->Ok_0.0@ == ip && match p {
                Some(n) => r->Ok_0.1 == Some(n as u8),
                None => r->Ok_0.1 is None,
            },
            Err(k) => r is Err && r->Err_0.kind() == k,
        },
{
    let chars = chars_of(address);
    match find_char_exec(&chars, '/') {
        None => {
            let r: Result<(String, Option<u8>), NetError> = Ok((string_from_chars(&chars), None));
            assert(parse_ip_cidr_spec(address@) == Ok::<(Seq<char>, Option<nat>), NetErrorKind>((address@, None)));
            r
        }
        Some(pos) => {
            let tail = copy_range(&chars, pos + 1, chars.len());
            assert(tail@ == address@.subrange(pos + 1, address@.len() as int));
            match parse_unsigned_chars(&tail, 255) {
                Some(p) => {
                    let ip = copy_range(&chars, 0, pos);
                    assert(ip@ == address@.subrange(0, pos as int));
                    assert(find_char(address@, '/') == Some(pos as int));
                    assert(parse_unsigned(address@.subrange(pos + 1, address@.len() as int), 255) == Some(p as nat));
                    assert(parse_ip_cidr_spec(address@) == Ok::<(Seq<char>, Option<nat>), NetErrorKind>((ip@, Some(p as nat))));
                    Ok((string_from_chars(&ip), Some(p as u8)))
                }
                None => Err(NetError::InvalidCidrPrefix(string_from_chars(&chars))),
            }
        }
    }
}

/// The text without its `:` and `-` separators.
pub open spec fn drop_mac_separators(s: Seq<char>) -> Seq<char>
    decreases s.len(),
{
    if s.len() == 0 {
        s
    } else if s.last() == ':' || s.last() == '-' {
        drop_mac_separators(s.drop_last())
    } else {
        drop_mac_separators(s.drop_last()).push(s.last())
    }
}

/// The characters taken two at a time and joined with `:`.
pub open spec fn pair_join(h: Seq<char>) -> Seq<char>
    decreases h.len(),
{
    if h.len() == 0 {
        h
    } else if h.len() > 1 && (h.len() - 1) % 2 == 0 {
        pair_join(h.drop_last()).push(':').push(h.last())
    } else {
        pair_join(h.drop_last()).push(h.last())
    }
}

/// The normal form of a MAC address text: lowercased, separators dropped, and
/// the characters regrouped in pairs joined with `:`.
pub open spec fn normal_mac(mac: Seq<char>) -> Seq<char> {
    pair_join(drop_mac_separators(unicode_lowercase(mac)))
}

/// Normalizes a MAC address to lowercase pairs joined with colons, so that
/// `AA:BB:CC:DD:EE:FF` and `aa-bb-cc-dd-ee-ff` both become `aa:bb:cc:dd:ee:ff`.
pub fn normalize_mac_address(mac: &str) -> (r: String)
    ensures
        r@ == normal_mac(mac@),
{
    let lower = to_lowercase(mac);
    let l = chars_of(lower.as_str());
    let mut h: Vec<char> = Vec::new();
    let mut i: usize = 0;
    while i < l.len()
        invariant
            i <= l.len(),
            h@ == drop_mac_separators(l@.subrange(0, i as int)),
        decreases l.len() - i,
    {
        proof {
            assert(l@.subrange(0, i as int + 1).drop_last() =~= l@.subrange(0, i as int));
        }
        let c = l[i];
        if c != ':' && c != '-' {
            h.push(c);
        }
        i = i + 1;
    }
    assert(l@.subrange(0, l.len() as int) =~= l@);
    let mut out: Vec<char> = Vec::new();
    let mut j: usize = 0;
    while j < h.len()
        invariant
            j <= h.len(),
            out@ == pair_join(h@.subrange(0, j as int)),
        decreases h.len() - j,
    {
        proof {
            assert(h@.subrange(0, j as int + 1).drop_last() =~= h@.subrange(0, j as int));
        }
        if j > 0 && j % 2 == 0 {
            out.push(':');
        }
        out.push(h[j]);
        j = j + 1;
    }
    assert(h@.subrange(0, h.len() as int) =~= h@);
    string_from_chars(&out)
}

} // verus!

verus! {

proof fn lemma_popcount_bound(n: nat, k: nat)
    requires
        n < pow2_u8(k as int),
    ensures
        popcount(n) <= k,
    decreases k,
{
    reveal_pow2_u8(k as int);
    if k > 0 {
        lemma_popcount_bound(n / 2, (k - 1) as nat);
    }
}

proof fn lemma_octet_bits_bound(parts: Seq<Seq<char>>)
    requires
        first_bad_octet(parts) is None,
    ensures
        octet_bits(parts) <= 8 * parts.len(),
    decreases parts.len(),
{
    if parts.len() > 0 {
        lemma_octet_bits_bound(parts.drop_last());
        let v = parse_unsigned(parts.last(), 255).unwrap();
        reveal_pow2_u8(8);
        lemma_popcount_bound(v, 8);
    }
}

/// A netmask that is accepted gives a prefix length of at most 32.
pub proof fn lemma_netmask_to_cidr_bound(nm: Seq<char>)
    ensures
        netmask_to_cidr_spec(nm) matches Ok(p) ==> p <= 32,
{
    let parts = split_on(nm, '.');
    if parts.len() == 4 && first_bad_octet(parts) is None {
        lemma_octet_bits_bound(parts);
    }
}


proof fn lemma_mask_octet(p: nat, k: nat)
    ensures
        mask_octet(p, k) <= 255,
        popcount(mask_octet(p, k)) == octet_ones(p, k),
{
    reveal_with_fuel(pow2_u8, 10);
    let o = octet_ones(p, k);
    assert(o <= 8);
    if o == 0 {
        assert(mask_octet(p, k) == 0);
        assert(popcount(0) == 0);
    } else if o == 1 {
        assert(mask_octet(p, k) == 128);
        assert(popcount(128) == 1) by {
            reveal_with_fuel(popcount, 10);
        }
    } else if o == 2 {
        assert(mask_octet(p, k) == 192);
        assert(popcount(192) == 2) by {
            reveal_with_fuel(popcount, 10);
        }
    } else if o == 3 {
        assert(mask_octet(p, k) == 224);
        assert(popcount(224) == 3) by {
            reveal_with_fuel(popcount, 10);
        }
    } else if o == 4 {
        assert(mask_octet(p, k) == 240);
        assert(popcount(240) == 4) by {
            reveal_with_fuel(popcount, 10);
        }
    } else if o == 5 {
        assert(mask_octet(p, k) == 248);
        assert(popcount(248) == 5) by {
            reveal_with_fuel(popcount, 10);
        }
    } else if o == 6 {
        assert(mask_octet(p, k) == 252);
        assert(popcount(252) == 6) by {
            reveal_with_fuel(popcount, 10);
        }
    } else if o == 7 {
        assert(mask_octet(p, k) == 254);
        assert(popcount(254) == 7) by {
            reveal_with_fuel(popcount, 10);
        }
    } else {
        assert(mask_octet(p, k) == 255);
        assert(popcount(255) == 8) by {
            reveal_with_fuel(popcount, 10);
        }
    }
}

/// The text of an octet of a mask: its digits, which hold no dot and read back
/// as the octet.
proof fn lemma_octet_text(p: nat, k: nat)
    ensures
        forall|i: int| 0 <= i < dec_digits(mask_octet(p, k)).len() ==> dec_digits(mask_octet(p, k))[i] != '.',
        parse_unsigned(dec_digits(mask_octet(p, k)), 255) == Some(mask_octet(p, k)),
{
    let d = dec_digits(mask_octet(p, k));
    lemma_mask_octet(p, k);
    crate::text::lemma_dec_digits_value(mask_octet(p, k));
    assert forall|i: int| 0 <= i < d.len() implies d[i] != '.' by {
        assert(crate::text::is_digit(d[i]));
    }
    assert(crate::text::is_digit(d[0]));
    assert(crate::text::unsigned_body(d) == d);
}

/// Turning a prefix length into a netmask and reading it back gives the prefix
/// length.
pub proof fn law_netmask_round_trip(p: nat)
    requires
        p <= 32,
    ensures
        netmask_to_cidr_spec(netmask_text(p)) == Ok::<nat, NetErrorKind>(p),
{
    let d0 = dec_digits(mask_octet(p, 0));
    let d1 = dec_digits(mask_octet(p, 1));
    let d2 = dec_digits(mask_octet(p, 2));
    let d3 = dec_digits(mask_octet(p, 3));
    lemma_octet_text(p, 0);
    lemma_octet_text(p, 1);
    lemma_octet_text(p, 2);
    lemma_octet_text(p, 3);
    lemma_mask_octet(p, 0);
    lemma_mask_octet(p, 1);
    lemma_mask_octet(p, 2);
    lemma_mask_octet(p, 3);
    let a1 = d0 + seq!['.'] + d1;
    let a2 = a1 + seq!['.'] + d2;
    let a3 = a2 + seq!['.'] + d3;
    assert(a3 == netmask_text(p));
    crate::text::lemma_split_on_single(d0, '.');
    crate::text::lemma_split_on_piece(d0, d1, '.');
    crate::text::lemma_split_on_piece(a1, d2, '.');
    crate::text::lemma_split_on_piece(a2, d3, '.');
    let parts = split_on(a3, '.');
    assert(parts =~= seq![d0, d1, d2, d3]);
    let q3 = parts.drop_last();
    let q2 = q3.drop_last();
    let q1 = q2.drop_last();
    let q0 = q1.drop_last();
    assert(q3 =~= seq![d0, d1, d2]);
    assert(q2 =~= seq![d0, d1]);
    assert(q1 =~= seq![d0]);
    assert(q0 =~= Seq::<Seq<char>>::empty());
    assert(first_bad_octet(q0) is None);
    assert(octet_bits(q0) == 0);
    assert(first_bad_octet(q1) is None);
    assert(first_bad_octet(q2) is None);
    assert(first_bad_octet(q3) is None);
    assert(first_bad_octet(parts) is None);
    assert(octet_bits(q1) == octet_ones(p, 0));
    assert(octet_bits(q2) == octet_ones(p, 0) + octet_ones(p, 1));
    assert(octet_bits(q3) == octet_ones(p, 0) + octet_ones(p, 1) + octet_ones(p, 2));
    assert(octet_bits(parts) == octet_ones(p, 0) + octet_ones(p, 1) + octet_ones(p, 2) + octet_ones(p, 3));
}

/// What `base64::decode` (standard alphabet, with padding) gives for a text: the
/// bytes it encodes, or nothing where it is not valid base64.
pub uninterp spec fn base64_decoded(text: Seq<char>) -> Option<Seq<u8>>;

/// What `base64::encode` (standard alphabet, with padding) gives for bytes.
pub uninterp spec fn base64_encoded(data: Seq<u8>) -> Seq<char>;

/// What `String::from_utf8_lossy` gives for bytes.
pub uninterp spec fn utf8_lossy(bytes: Seq<u8>) -> Seq<char>;

/// Calls `base64::decode` (0.13) on the text; the decoded bytes are named by
/// `base64_decoded`, nothing more is claimed of them. The crate's own overflow
/// checks fail only for inputs longer than an allocation can be.
#[verifier::external_body]
fn base64_decode_call(data: &str) -> (r: Option<Vec<u8>>)
    ensures
        match base64_decoded(data@) {
            Some(b) => r is Some && r->0@ == b,
            None => r is None,
        },
{
    base64::decode(data).ok()
}

/// Decodes standard base64: refused, with the message "Failed to decode base64
/// data", where the text is not valid base64.
pub fn decode_base64(data: &str) -> (r: Result<Vec<u8>, String>)
    ensures
        match base64_decoded(data@) {
            Some(b) => r is Ok && r->Ok_0@ == b,
            None => r is Err && r->Err_0@ == "Failed to decode base64 data"@,
        },
{
    match base64_decode_call(data) {
        Some(b) => Ok(b),
        None => Err("Failed to decode base64 data".to_owned()),
    }
}

/// Encodes bytes as standard base64 with `base64::encode` (0.13); the result is
/// named by `base64_encoded`, nothing more is claimed of it. The crate's
/// overflow check on the output length fails only for inputs longer than an
/// allocation can be.
#[verifier::external_body]
pub fn encode_base64(data: &[u8]) -> (r: String)
    ensures
        r@ == base64_encoded(data@),
{
    base64::encode(data)
}

/// Reads bytes as UTF-8 with `String::from_utf8_lossy`, replacing invalid
/// sequences; the text is named by `utf8_lossy`, nothing more is claimed of it.
#[verifier::external_body]
pub(crate) fn text_from_bytes(bytes: &Vec<u8>) -> (r: String)
    ensures
        r@ == utf8_lossy(bytes@),
{
    String::from_utf8_lossy(bytes).into_owned()
}
} // verus!
