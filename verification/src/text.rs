//! Textual forms of numbers and IP addresses, as the standard library's
//! `Display` implementations write them: decimal and lower-case hexadecimal
//! numbers, dotted IPv4 addresses and RFC 5952 IPv6 addresses.
use vstd::prelude::*;
use vstd::string::*;

verus! {

/// The character that writes the digit `d` (0 to 15) in lower-case hexadecimal.
pub open spec fn hex_char(d: nat) -> char {
    if d == 0 { '0' }
    else if d == 1 { '1' }
    else if d == 2 { '2' }
    else if d == 3 { '3' }
    else if d == 4 { '4' }
    else if d == 5 { '5' }
    else if d == 6 { '6' }
    else if d == 7 { '7' }
    else if d == 8 { '8' }
    else if d == 9 { '9' }
    else if d == 10 { 'a' }
    else if d == 11 { 'b' }
    else if d == 12 { 'c' }
    else if d == 13 { 'd' }
    else if d == 14 { 'e' }
    else { 'f' }
}

/// `n` in decimal, without leading zeros (`0` is written `"0"`).
pub open spec fn decimal(n: nat) -> Seq<char>
    decreases n,
{
    if n < 10 {
        seq![hex_char(n)]
    } else {
        decimal(n / 10).push(hex_char(n % 10))
    }
}

/// `n` in lower-case hexadecimal, without leading zeros.
pub open spec fn hex_lower(n: nat) -> Seq<char>
    decreases n,
{
    if n < 16 {
        seq![hex_char(n)]
    } else {
        hex_lower(n / 16).push(hex_char(n % 16))
    }
}

/// The value of a sequence of decimal digit characters.
pub open spec fn decimal_value(s: Seq<char>) -> int
    decreases s.len(),
{
    if s.len() == 0 {
        0
    } else {
        decimal_value(s.drop_last()) * 10 + (s.last() as int - '0' as int)
    }
}

/// The dotted form of an IPv4 address, `a.b.c.d`.
pub open spec fn ipv4_text(o: Seq<u8>) -> Seq<char> {
    decimal(o[0] as nat) + seq!['.'] + decimal(o[1] as nat) + seq!['.'] + decimal(o[2] as nat)
        + seq!['.'] + decimal(o[3] as nat)
}

/// The number of consecutive zero groups of `s` that start at index `i`.
pub open spec fn zero_run(s: Seq<u16>, i: int) -> nat
    decreases s.len() - i,
{
    if i < 0 || i >= s.len() || s[i] != 0 {
        0
    } else {
        1 + zero_run(s, i + 1)
    }
}

/// Start and length of the first longest run of zero groups among the runs
/// that start before index `k`.
pub open spec fn longest_zero_run(s: Seq<u16>, k: nat) -> (int, nat)
    decreases k,
{
    if k == 0 {
        (0, 0)
    } else {
        let prev = longest_zero_run(s, (k - 1) as nat);
        if zero_run(s, k - 1) > prev.1 {
            (k - 1, zero_run(s, k - 1))
        } else {
            prev
        }
    }
}

/// The groups of `s` in lower-case hexadecimal, separated by `:`.
pub open spec fn hex_groups(s: Seq<u16>) -> Seq<char>
    decreases s.len(),
{
    if s.len() == 0 {
        seq![]
    } else if s.len() == 1 {
        hex_lower(s[0] as nat)
    } else {
        hex_groups(s.drop_last()) + seq![':'] + hex_lower(s.last() as nat)
    }
}

/// Whether the eight groups of `s` are an IPv4-mapped address `::ffff:a.b.c.d`.
pub open spec fn is_ipv4_mapped(s: Seq<u16>) -> bool {
    &&& s[0] == 0 && s[1] == 0 && s[2] == 0 && s[3] == 0 && s[4] == 0
    &&& s[5] == 0xffff
}

/// The four bytes of the IPv4 address inside an IPv4-mapped IPv6 address.
pub open spec fn mapped_octets(s: Seq<u16>) -> Seq<u8> {
    seq![(s[6] / 256) as u8, (s[6] % 256) as u8, (s[7] / 256) as u8, (s[7] % 256) as u8]
}

/// The text of an IPv6 address given by its eight groups: an IPv4-mapped
/// address is written `::ffff:a.b.c.d`; otherwise the first longest run of two
/// or more zero groups is written `::` and the other groups in lower-case
/// hexadecimal, separated by `:`.
pub open spec fn ipv6_text(s: Seq<u16>) -> Seq<char> {
    if is_ipv4_mapped(s) {
        seq![':', ':', 'f', 'f', 'f', 'f', ':'] + ipv4_text(mapped_octets(s))
    } else {
        let run = longest_zero_run(s, s.len());
        if run.1 > 1 {
            hex_groups(s.subrange(0, run.0)) + seq![':', ':'] + hex_groups(
                s.subrange(run.0 + run.1, s.len() as int),
            )
        } else {
            hex_groups(s)
        }
    }
}

/// Reading back the digits that `decimal` writes gives the number.
pub proof fn lemma_decimal_value(n: nat)
    ensures
        decimal_value(decimal(n)) == n,
    decreases n,
{
    let d = n % 10;
    assert(hex_char(d) as int - '0' as int == d) by {
        assert('0' as int == 48 && '1' as int == 49 && '2' as int == 50 && '3' as int == 51);
        assert('4' as int == 52 && '5' as int == 53 && '6' as int == 54 && '7' as int == 55);
        assert('8' as int == 56 && '9' as int == 57);
    }
    if n >= 10 {
        lemma_decimal_value(n / 10);
        assert(decimal(n).drop_last() =~= decimal(n / 10));
        assert(decimal(n).last() == hex_char(d));
    } else {
        assert(decimal(n).drop_last() =~= Seq::<char>::empty());
        assert(decimal_value(Seq::<char>::empty()) == 0);
    }
}

/// The value of a sequence of lower-case hexadecimal digit characters.
pub open spec fn hex_value(s: Seq<char>) -> int
    decreases s.len(),
{
    if s.len() == 0 {
        0
    } else {
        let c = s.last();
        let d = if c as int <= '9' as int {
            c as int - '0' as int
        } else {
            c as int - 'a' as int + 10
        };
        hex_value(s.drop_last()) * 16 + d
    }
}

/// Reading back the digits that `hex_lower` writes gives the number.
pub proof fn lemma_hex_value(n: nat)
    ensures
        hex_value(hex_lower(n)) == n,
    decreases n,
{
    let d = n % 16;
    assert(('0' as int == 48 && '1' as int == 49 && '2' as int == 50 && '3' as int == 51));
    assert(('4' as int == 52 && '5' as int == 53 && '6' as int == 54 && '7' as int == 55));
    assert(('8' as int == 56 && '9' as int == 57 && 'a' as int == 97 && 'b' as int == 98));
    assert(('c' as int == 99 && 'd' as int == 100 && 'e' as int == 101 && 'f' as int == 102));
    if n >= 16 {
        lemma_hex_value(n / 16);
        assert(hex_lower(n).drop_last() =~= hex_lower(n / 16));
        assert(hex_lower(n).last() == hex_char(d));
    } else {
        assert(hex_lower(n).drop_last() =~= Seq::<char>::empty());
        assert(hex_value(Seq::<char>::empty()) == 0);
    }
}

/// The run chosen by `longest_zero_run` is a run of that length, no run is
/// longer, and every run that starts before it is shorter.
pub proof fn lemma_longest_zero_run(s: Seq<u16>, k: nat)
    requires
        k <= s.len(),
    ensures
        ({
            let run = longest_zero_run(s, k);
            &&& run.1 > 0 ==> 0 <= run.0 < k && zero_run(s, run.0) == run.1
            &&& forall|i: int| 0 <= i < k ==> zero_run(s, i) <= run.1
            &&& forall|i: int| 0 <= i < run.0 ==> zero_run(s, i) < run.1
        }),
    decreases k,
{
    if k > 0 {
        lemma_longest_zero_run(s, (k - 1) as nat);
    }
}

/// The text of the hexadecimal or decimal digit `d`.
fn digit_text(d: u8) -> (t: &'static str)
    requires
        d < 16,
    ensures
        t@ == seq![hex_char(d as nat)],
{
    if d == 0 {
        proof { reveal_strlit("0"); }
        "0"
    } else if d == 1 {
        proof { reveal_strlit("1"); }
        "1"
    } else if d == 2 {
        proof { reveal_strlit("2"); }
        "2"
    } else if d == 3 {
        proof { reveal_strlit("3"); }
        "3"
    } else if d == 4 {
        proof { reveal_strlit("4"); }
        "4"
    } else if d == 5 {
        proof { reveal_strlit("5"); }
        "5"
    } else if d == 6 {
        proof { reveal_strlit("6"); }
        "6"
    } else if d == 7 {
        proof { reveal_strlit("7"); }
        "7"
    } else if d == 8 {
        proof { reveal_strlit("8"); }
        "8"
    } else if d == 9 {
        proof { reveal_strlit("9"); }
        "9"
    } else if d == 10 {
        proof { reveal_strlit("a"); }
        "a"
    } else if d == 11 {
        proof { reveal_strlit("b"); }
        "b"
    } else if d == 12 {
        proof { reveal_strlit("c"); }
        "c"
    } else if d == 13 {
        proof { reveal_strlit("d"); }
        "d"
    } else if d == 14 {
        proof { reveal_strlit("e"); }
        "e"
    } else {
        proof { reveal_strlit("f"); }
        "f"
    }
}

/// Appends `n` in decimal to `out`.
pub fn push_decimal(out: &mut String, n: u64)
    ensures
        final(out)@ == old(out)@ + decimal(n as nat),
    decreases n,
{
    if n >= 10 {
        push_decimal(out, n / 10);
    }
    let d: u8 = (n % 10) as u8;
    out.append(digit_text(d));
    proof {
        if n >= 10 {
            assert(decimal(n as nat) == decimal((n / 10) as nat).push(hex_char((n % 10) as nat)));
        }
    }
    assert(final(out)@ =~= old(out)@ + decimal(n as nat));
}

/// Appends `n` in lower-case hexadecimal to `out`.
pub fn push_hex(out: &mut String, n: u16)
    ensures
        final(out)@ == old(out)@ + hex_lower(n as nat),
    decreases n,
{
    if n >= 16 {
        push_hex(out, n / 16);
    }
    let d: u8 = (n % 16) as u8;
    out.append(digit_text(d));
    proof {
        if n >= 16 {
            assert(hex_lower(n as nat) == hex_lower((n / 16) as nat).push(hex_char((n % 16) as nat)));
        }
    }
    assert(final(out)@ =~= old(out)@ + hex_lower(n as nat));
}

/// Appends the dotted form of the IPv4 address `o` to `out`.
pub fn push_ipv4(out: &mut String, o: &[u8; 4])
    ensures
        final(out)@ == old(out)@ + ipv4_text(o@),
{
    let dot = ".";
    proof { reveal_strlit("."); }
    push_decimal(out, o[0] as u64);
    out.append(dot);
    push_decimal(out, o[1] as u64);
    out.append(dot);
    push_decimal(out, o[2] as u64);
    out.append(dot);
    push_decimal(out, o[3] as u64);
    assert(final(out)@ =~= old(out)@ + ipv4_text(o@));
}

/// The number of consecutive zero groups of `s` from index `i` on.
fn zero_run_at(s: &[u16; 8], i: usize) -> (r: usize)
    requires
        i <= 8,
    ensures
        r == zero_run(s@, i as int),
{
    let mut j: usize = i;
    while j < 8 && s[j] == 0
        invariant
            i <= j <= 8,
            s@.len() == 8,
            zero_run(s@, i as int) == (j - i) + zero_run(s@, j as int),
        decreases 8 - j,
    {
        j = j + 1;
    }
    j - i
}

/// Start and length of the first longest run of zero groups of `s`.
fn find_longest_zero_run(s: &[u16; 8]) -> (r: (usize, usize))
    ensures
        r.0 as int == longest_zero_run(s@, 8).0,
        r.1 as nat == longest_zero_run(s@, 8).1,
        r.0 + r.1 <= 8,
{
    let mut best_start: usize = 0;
    let mut best_len: usize = 0;
    let mut i: usize = 0;
    while i < 8
        invariant
            i <= 8,
            s@.len() == 8,
            best_start as int == longest_zero_run(s@, i as nat).0,
            best_len as nat == longest_zero_run(s@, i as nat).1,
            best_start + best_len <= 8,
        decreases 8 - i,
    {
        let run = zero_run_at(s, i);
        proof { lemma_zero_run_bound(s@, i as int); }
        if run > best_len {
            best_start = i;
            best_len = run;
        }
        i = i + 1;
    }
    (best_start, best_len)
}

proof fn lemma_zero_run_bound(s: Seq<u16>, i: int)
    requires
        0 <= i <= s.len(),
    ensures
        i + zero_run(s, i) <= s.len(),
    decreases s.len() - i,
{
    if i < s.len() {
        lemma_zero_run_bound(s, i + 1);
    }
}

/// Appends the groups `s[lo..hi]` in hexadecimal, separated by `:`.
fn push_hex_groups(out: &mut String, s: &[u16; 8], lo: usize, hi: usize)
    requires
        lo <= hi <= 8,
    ensures
        final(out)@ == old(out)@ + hex_groups(s@.subrange(lo as int, hi as int)),
{
    let colon = ":";
    proof { reveal_strlit(":"); }
    let ghost start = out@;
    let mut i: usize = lo;
    while i < hi
        invariant
            lo <= i <= hi <= 8,
            s@.len() == 8,
            colon@ == seq![':'],
            out@ == start + hex_groups(s@.subrange(lo as int, i as int)),
        decreases hi - i,
    {
        let ghost before = out@;
        if i > lo {
            out.append(colon);
        }
        push_hex(out, s[i]);
        proof {
            let next = s@.subrange(lo as int, i + 1);
            assert(next.drop_last() =~= s@.subrange(lo as int, i as int));
            if i == lo {
                assert(s@.subrange(lo as int, i as int) =~= Seq::<u16>::empty());
            }
            assert(out@ =~= start + hex_groups(next));
        }
        i = i + 1;
    }
}

/// Appends the text of the IPv6 address with groups `s` to `out`.
pub fn push_ipv6(out: &mut String, s: &[u16; 8])
    ensures
        final(out)@ == old(out)@ + ipv6_text(s@),
{
    if s[0] == 0 && s[1] == 0 && s[2] == 0 && s[3] == 0 && s[4] == 0 && s[5] == 0xffff {
        let prefix = "::ffff:";
        proof { reveal_strlit("::ffff:"); }
        out.append(prefix);
        let octets: [u8; 4] = [(s[6] / 256) as u8, (s[6] % 256) as u8, (s[7] / 256) as u8, (s[7] % 256) as u8];
        push_ipv4(out, &octets);
        assert(octets@ =~= mapped_octets(s@));
        assert(final(out)@ =~= old(out)@ + ipv6_text(s@));
    } else {
        let (start, len) = find_longest_zero_run(s);
        if len > 1 {
            push_hex_groups(out, s, 0, start);
            let gap = "::";
            proof { reveal_strlit("::"); }
            out.append(gap);
            push_hex_groups(out, s, start + len, 8);
            assert(final(out)@ =~= old(out)@ + ipv6_text(s@));
        } else {
            push_hex_groups(out, s, 0, 8);
            assert(s@.subrange(0, 8) =~= s@);
        }
    }
}

} // verus!
