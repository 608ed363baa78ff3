//! Reading the output of the GPU query tools (`nvidia-smi`, `rocm-smi`,
//! `lspci`, `clinfo`) into GPU descriptions.
//!
//! Fields are split on a separator and trimmed of Unicode white space;
//! numbers read as `u64::from_str` reads them. Case-insensitive matches
//! lowercase ASCII letters and the Kelvin sign; for the ASCII patterns
//! searched here that is what Unicode lowercasing gives.

use vstd::prelude::*;
use vstd::string::{StrSliceExecFns, StringExecFns};
use crate::text::{utf8, has_infix, has_prefix, str_contains, str_starts_with};
use crate::docs::{
    is_ws, skip_ws, skip_word, find_char, before_char, lemma_skip_ws, lemma_skip_word,
    lemma_find_char, char_is_ws, skip_ws_from, skip_word_from, find_char_in,
};
use crate::server::gpu::{GpuInfo, GpuVendor, GpuBackend, vendor_of_name, detect_vendor_from_name};

verus! {

/// End of `s[..i]` without its trailing white space.
pub open spec fn trim_end(s: Seq<char>, i: int) -> int
    decreases i,
{
    if i <= 0 {
        0
    } else if is_ws(s[i - 1]) {
        trim_end(s, i - 1)
    } else {
        i
    }
}

/// `s` without leading and trailing white space.
pub open spec fn trim(s: Seq<char>) -> Seq<char> {
    let a = skip_ws(s, 0);
    let e = trim_end(s, s.len() as int);
    if a < e {
        s.subrange(a, e)
    } else {
        Seq::empty()
    }
}

/// The fields of `s` between the separators `sep`.
pub open spec fn split(s: Seq<char>, sep: char) -> Seq<Seq<char>>
    decreases s.len(),
{
    let k = find_char(s, sep, 0);
    if k >= s.len() {
        seq![s]
    } else {
        proof {
            lemma_find_char(s, sep, 0);
        }
        seq![s.subrange(0, k)] + split(s.subrange(k + 1, s.len() as int), sep)
    }
}

/// The trimmed fields of `s`.
pub open spec fn fields(s: Seq<char>, sep: char) -> Seq<Seq<char>> {
    split(s, sep).map_values(|f: Seq<char>| trim(f))
}

proof fn lemma_trim_end(s: Seq<char>, i: int)
    requires
        0 <= i <= s.len(),
    ensures
        0 <= trim_end(s, i) <= i,
    decreases i,
{
    if i > 0 && is_ws(s[i - 1]) {
        lemma_trim_end(s, i - 1);
    }
}

/// `s` without leading and trailing white space.
pub fn trim_str(s: &str) -> (r: String)
    ensures
        r@ == trim(s@),
{
    let n = s.unicode_len();
    let a = skip_ws_from(s, 0);
    let mut e = n;
    while e > 0 && char_is_ws(s.get_char(e - 1))
        invariant
            n == s@.len(),
            e <= n,
            trim_end(s@, n as int) == trim_end(s@, e as int),
        decreases e,
    {
        e = e - 1;
    }
    proof {
        lemma_skip_ws(s@, 0);
        lemma_trim_end(s@, e as int);
    }
    if a < e {
        String::from_str(s.substring_char(a, e))
    } else {
        String::new()
    }
}

/// The trimmed fields of `line` between the separators `sep`.
pub fn split_fields(line: &str, sep: char) -> (r: Vec<String>)
    ensures
        r@.len() == fields(line@, sep).len(),
        forall|i: int| 0 <= i < r@.len() ==> #[trigger] r@[i]@ == fields(line@, sep)[i],
{
    let mut out: Vec<String> = Vec::new();
    let mut rest: &str = line;
    let ghost mut done: Seq<Seq<char>> = Seq::empty();
    loop
        invariant_except_break
            split(line@, sep) == done + split(rest@, sep),
        invariant
            out@.len() == done.len(),
            forall|i: int| 0 <= i < out@.len() ==> #[trigger] out@[i]@ == trim(done[i]),
        ensures
            split(line@, sep) == done,
            out@.len() == done.len(),
            forall|i: int| 0 <= i < out@.len() ==> #[trigger] out@[i]@ == trim(done[i]),
        decreases rest@.len(),
    {
        let n = rest.unicode_len();
        let k = find_char_in(rest, sep);
        proof {
            lemma_find_char(rest@, sep, 0);
        }
        if k >= n {
            out.push(trim_str(rest));
            proof {
                assert(split(rest@, sep) == seq![rest@]);
                assert(done + split(rest@, sep) =~= done.push(rest@));
                done = done.push(rest@);
            }
            break;
        }
        let field = rest.substring_char(0, k);
        out.push(trim_str(field));
        let next = rest.substring_char(k + 1, n);
        proof {
            let old_done = done;
            done = done.push(rest@.subrange(0, k as int));
            assert(split(rest@, sep) == seq![rest@.subrange(0, k as int)] + split(next@, sep));
            assert(done + split(next@, sep) =~= old_done + split(rest@, sep));
        }
        rest = next;
    }
    proof {
        assert forall|i: int| 0 <= i < out@.len() implies #[trigger] out@[i]@ == fields(line@, sep)[i] by {
            assert(fields(line@, sep)[i] == trim(split(line@, sep)[i]));
        }
    }
    out
}

pub open spec fn is_digit_char(c: char) -> bool {
    '0' <= c <= '9'
}

/// Decimal value of a run of digit characters.
pub open spec fn decimal_value(d: Seq<char>) -> nat
    decreases d.len(),
{
    if d.len() == 0 {
        0
    } else {
        decimal_value(d.drop_last()) * 10 + (d.last() as nat - 48) as nat
    }
}

/// `s` without a leading `+`.
pub open spec fn unsigned_digits(s: Seq<char>) -> Seq<char> {
    if s.len() > 0 && s[0] == '+' {
        s.drop_first()
    } else {
        s
    }
}

pub open spec fn all_digit_chars(d: Seq<char>) -> bool {
    forall|k: int| 0 <= k < d.len() ==> is_digit_char(#[trigger] d[k])
}

/// What `u64::from_str` makes of `s`: an optional `+`, then one or more
/// decimal digits whose value fits.
pub open spec fn parse_u64(s: Seq<char>) -> Option<u64> {
    let d = unsigned_digits(s);
    if d.len() > 0 && all_digit_chars(d) && decimal_value(d) <= u64::MAX {
        Some(decimal_value(d) as u64)
    } else {
        None
    }
}

proof fn lemma_decimal_prefix(d: Seq<char>, k: int)
    requires
        forall|j: int| 0 <= j < d.len() ==> is_digit_char(#[trigger] d[j]),
        0 <= k <= d.len(),
    ensures
        decimal_value(d.subrange(0, k)) <= decimal_value(d),
    decreases d.len(),
{
    if k < d.len() {
        let q = d.drop_last();
        assert forall|j: int| 0 <= j < q.len() implies is_digit_char(#[trigger] q[j]) by {
            assert(q[j] == d[j]);
        }
        lemma_decimal_prefix(q, k);
        assert(q.subrange(0, k) =~= d.subrange(0, k));
    } else {
        assert(d.subrange(0, k) =~= d);
    }
}

/// `u64::from_str`.
pub fn parse_u64_str(s: &str) -> (r: Option<u64>)
    ensures
        r == parse_u64(s@),
{
    let n = s.unicode_len();
    let mut i: usize = 0;
    if n > 0 && s.get_char(0) == '+' {
        i = 1;
    }
    let ghost d = s@.subrange(i as int, n as int);
    proof {
        if i == 1 {
            assert(s@.drop_first() =~= d);
        } else {
            assert(s@ =~= d);
        }
    }
    if i == n {
        return None;
    }
    let mut v: u64 = 0;
    let mut j: usize = i;
    while j < n
        invariant
            n == s@.len(),
            i <= j <= n,
            i < n,
            d == s@.subrange(i as int, n as int),
            d == unsigned_digits(s@),
            forall|k: int| 0 <= k < j - i ==> is_digit_char(#[trigger] d[k]),
            v == decimal_value(d.subrange(0, j - i)),
        decreases n - j,
    {
        let c = s.get_char(j);
        if c < '0' || c > '9' {
            assert(d[j - i] == s@[j as int]);
            assert(!is_digit_char(d[j - i]));
            return None;
        }
        let dv = (c as u32 - 48) as u64;
        let ghost pre = d.subrange(0, j - i);
        let ghost post = d.subrange(0, j + 1 - i);
        assert(post.drop_last() =~= pre);
        assert(post.last() == c);
        assert(d[j - i] == s@[j as int]);
        if v > (u64::MAX - dv) / 10 {
            proof {
                assert(decimal_value(post) > u64::MAX) by (nonlinear_arith)
                    requires
                        decimal_value(post) == v * 10 + dv,
                        v > (u64::MAX - dv) / 10,
                        dv <= 9,
                ;
                if all_digit_chars(d) {
                    lemma_decimal_prefix(d, j + 1 - i);
                }
            }
            return None;
        }
        assert(v * 10 + dv <= u64::MAX) by (nonlinear_arith)
            requires
                v <= (u64::MAX - dv) / 10,
                dv <= 9,
        ;
        v = v * 10 + dv;
        j = j + 1;
    }
    assert(d.subrange(0, n - i) =~= d);
    Some(v)
}

/// Lowercasing for matching ASCII patterns: ASCII capitals and the Kelvin
/// sign become lowercase letters; every other character stays.
pub open spec fn fold_char(c: char) -> char {
    if 'A' <= c <= 'Z' {
        ((c as u32) + 32) as char
    } else if c == '\u{212a}' {
        'k'
    } else {
        c
    }
}

pub open spec fn fold(s: Seq<char>) -> Seq<char> {
    s.map_values(|c: char| fold_char(c))
}

/// `p` occurs in `h`.
pub open spec fn has_chars(h: Seq<char>, p: Seq<char>) -> bool {
    exists|i: int| 0 <= i <= h.len() - p.len() && #[trigger] h.subrange(i, i + p.len()) == p
}

/// The case-folded characters of a string.
fn folded_chars(s: &str) -> (r: Vec<char>)
    ensures
        r@ == fold(s@),
{
    let n = s.unicode_len();
    let mut out: Vec<char> = Vec::new();
    let mut i: usize = 0;
    while i < n
        invariant
            n == s@.len(),
            i <= n,
            out@ == fold(s@.subrange(0, i as int)),
        decreases n - i,
    {
        let c = s.get_char(i);
        let f = if 'A' <= c && c <= 'Z' {
            let v = c as u32 + 32;
            assert(v < 0xd800);
            char_from_ascii(v)
        } else if c == '\u{212a}' {
            'k'
        } else {
            c
        };
        out.push(f);
        assert(out@ =~= fold(s@.subrange(0, i + 1)));
        i = i + 1;
    }
    assert(s@.subrange(0, n as int) =~= s@);
    out
}

/// The character of an ASCII lowercase letter code.
fn char_from_ascii(v: u32) -> (r: char)
    requires
        97 <= v <= 122,
    ensures
        r == v as char,
{
    let b = v as u8;
    assert(b == v);
    b as char
}

/// Whether the characters of `p` occur in `h`.
fn chars_contain(h: &Vec<char>, p: &Vec<char>) -> (r: bool)
    ensures
        r == has_chars(h@, p@),
{
    if p.len() > h.len() {
        return false;
    }
    if p.len() == 0 {
        assert(h@.subrange(0, 0 + p@.len() as int) =~= p@);
        return true;
    }
    let hn = h.len();
    let last = hn - p.len();
    let mut i: usize = 0;
    while i <= last
        invariant
            hn == h@.len(),
            0 < p@.len() <= h@.len(),
            last == h@.len() - p@.len(),
            i <= last + 1,
            forall|k: int| 0 <= k < i ==> #[trigger] h@.subrange(k, k + p@.len()) != p@,
        decreases last + 1 - i,
    {
        let mut j: usize = 0;
        let mut same = true;
        while j < p.len()
            invariant
                hn == h@.len(),
                0 < p@.len() <= h@.len(),
                i + p@.len() <= h@.len(),
                i <= last,
                last == h@.len() - p@.len(),
                j <= p@.len(),
                same == (forall|m: int| 0 <= m < j ==> h@[i + m] == p@[m]),
            decreases p@.len() - j,
        {
            if h[i + j] != p[j] {
                same = false;
            }
            j = j + 1;
        }
        if same {
            assert(h@.subrange(i as int, i + p@.len()) =~= p@);
            return true;
        }
        proof {
            let m = choose|m: int| 0 <= m < p@.len() && h@[i + m] != p@[m];
            assert(h@.subrange(i as int, i + p@.len())[m] != p@[m]);
        }
        i = i + 1;
    }
    false
}

/// Whether the case-folded `s` contains the lowercase pattern `p`.
fn folded_contains(s: &Vec<char>, p: &str) -> (r: bool)
    ensures
        r == has_chars(s@, p@),
{
    let n = p.unicode_len();
    let mut pc: Vec<char> = Vec::new();
    let mut i: usize = 0;
    while i < n
        invariant
            n == p@.len(),
            i <= n,
            pc@ == p@.subrange(0, i as int),
        decreases n - i,
    {
        pc.push(p.get_char(i));
        assert(pc@ =~= p@.subrange(0, i + 1));
        i = i + 1;
    }
    assert(p@.subrange(0, n as int) =~= p@);
    chars_contain(s, &pc)
}

/// A GPU named `name` looks like a laptop part.
pub open spec fn mobile_name(name: Seq<char>) -> bool {
    let f = fold(name);
    has_chars(f, "notebook"@) || has_chars(f, "laptop"@) || has_chars(f, "mobile"@) || has_chars(
        f,
        "max-q"@,
    )
}

/// The GPU an `nvidia-smi` CSV line (`index, name, memory.total,
/// driver_version, compute_cap, pci.bus_id`) describes; `fallback` numbers
/// it when its index does not read.
pub open spec fn nvidia_gpu(line: Seq<char>, fallback: usize, g: GpuInfo) -> bool {
    let p = fields(line, ',');
    &&& g.index == (match parse_u64(p[0]) {
        Some(v) => if v <= usize::MAX {
            v as usize
        } else {
            fallback
        },
        None => fallback,
    })
    &&& g.name@ == p[1]
    &&& g.vendor == GpuVendor::Nvidia
    &&& g.backend == GpuBackend::Cuda
    &&& g.vram_mb == parse_u64(p[2])
    &&& g.driver_version matches Some(s) && s@ == p[3]
    &&& g.compute_capability matches Some(s) && s@ == p[4]
    &&& g.is_integrated == mobile_name(p[1])
    &&& g.pci_id matches Some(s) && s@ == p[5]
}

/// The GPU of one `nvidia-smi` line, when it has at least six fields.
pub fn parse_nvidia_line(line: &str, fallback: usize) -> (r: Option<GpuInfo>)
    ensures
        fields(line@, ',').len() < 6 <==> r is None,
        r matches Some(g) ==> nvidia_gpu(line@, fallback, g),
{
    let parts = split_fields(line, ',');
    if parts.len() < 6 {
        return None;
    }
    let index = match parse_u64_str(parts[0].as_str()) {
        Some(v) => if v <= usize::MAX as u64 {
            v as usize
        } else {
            fallback
        },
        None => fallback,
    };
    let name = parts[1].clone();
    let folded = folded_chars(name.as_str());
    let is_integrated = folded_contains(&folded, "notebook") || folded_contains(&folded, "laptop")
        || folded_contains(&folded, "mobile") || folded_contains(&folded, "max-q");
    Some(
        GpuInfo {
            index,
            name,
            vendor: GpuVendor::Nvidia,
            backend: GpuBackend::Cuda,
            vram_mb: parse_u64_str(parts[2].as_str()),
            driver_version: Some(parts[3].clone()),
            compute_capability: Some(parts[4].clone()),
            is_integrated,
            pci_id: Some(parts[5].clone()),
        },
    )
}

/// Positions, among the first `n` lines, of those with at least `k` fields.
pub open spec fn full_lines(lines: Seq<String>, n: nat, sep: char, k: nat) -> Seq<int>
    decreases n,
{
    if n == 0 || n > lines.len() {
        Seq::empty()
    } else {
        full_lines(lines, (n - 1) as nat, sep, k) + if fields(lines[n - 1]@, sep).len() >= k {
            seq![n - 1]
        } else {
            Seq::empty()
        }
    }
}

proof fn lemma_full_lines_range(lines: Seq<String>, n: nat, sep: char, k: nat)
    requires
        n <= lines.len(),
    ensures
        full_lines(lines, n, sep, k).len() <= n,
        forall|j: int|
            0 <= j < full_lines(lines, n, sep, k).len() ==> 0 <= #[trigger] full_lines(
                lines,
                n,
                sep,
                k,
            )[j] < n,
    decreases n,
{
    if n > 0 {
        lemma_full_lines_range(lines, (n - 1) as nat, sep, k);
    }
}

/// The GPUs of `nvidia-smi` output lines, one per line with at least six
/// fields, in order; a GPU whose index does not read is numbered by how
/// many came before it.
pub fn parse_nvidia_smi(lines: &Vec<String>) -> (r: Vec<GpuInfo>)
    ensures
        r@.len() == full_lines(lines@, lines@.len(), ',', 6).len(),
        forall|k: int|
            0 <= k < r@.len() ==> nvidia_gpu(
                lines@[full_lines(lines@, lines@.len(), ',', 6)[k]]@,
                k as usize,
                #[trigger] r@[k],
            ),
{
    let mut out: Vec<GpuInfo> = Vec::new();
    let mut i: usize = 0;
    while i < lines.len()
        invariant
            i <= lines@.len(),
            out@.len() == full_lines(lines@, i as nat, ',', 6).len(),
            forall|k: int|
                0 <= k < out@.len() ==> nvidia_gpu(
                    lines@[full_lines(lines@, i as nat, ',', 6)[k]]@,
                    k as usize,
                    #[trigger] out@[k],
                ),
        decreases lines@.len() - i,
    {
        let ghost before = full_lines(lines@, i as nat, ',', 6);
        let fallback = out.len();
        match parse_nvidia_line(lines[i].as_str(), fallback) {
            Some(g) => {
                out.push(g);
                assert(full_lines(lines@, (i + 1) as nat, ',', 6) == before + seq![i as int]);
                proof {
                    assert forall|k: int| 0 <= k < out@.len() implies nvidia_gpu(
                        lines@[full_lines(lines@, (i + 1) as nat, ',', 6)[k]]@,
                        k as usize,
                        #[trigger] out@[k],
                    ) by {
                        if k < out@.len() - 1 {
                            assert(full_lines(lines@, (i + 1) as nat, ',', 6)[k] == before[k]);
                        }
                    }
                }
            },
            None => {
                assert(full_lines(lines@, (i + 1) as nat, ',', 6) =~= before);
            },
        }
        i = i + 1;
    }
    out
}

/// The GPU of `rocm-smi` CSV line number `index` (counted after the
/// header): the name in the second field and the VRAM in MiB from the
/// byte count in the third.
pub open spec fn rocm_gpu(line: Seq<char>, index: usize, g: GpuInfo) -> bool {
    let p = fields(line, ',');
    &&& g.index == index
    &&& g.name@ == p[1]
    &&& g.vendor == GpuVendor::Amd
    &&& g.backend == GpuBackend::Rocm
    &&& g.vram_mb == (match parse_u64(p[2]) {
        Some(v) => Some((v / 1024 / 1024) as u64),
        None => None,
    })
    &&& g.driver_version is None
    &&& g.compute_capability is None
    &&& !g.is_integrated
    &&& g.pci_id is None
}

/// The GPUs of `rocm-smi --csv` output: the first line is the header; every
/// later line with at least three fields is one GPU, numbered by its line.
pub fn parse_rocm_smi(lines: &Vec<String>) -> (r: Vec<GpuInfo>)
    ensures
        r@.len() == full_lines(lines@, lines@.len(), ',', 3).len() - (if lines@.len() > 0
            && fields(lines@[0]@, ',').len() >= 3 {
            1int
        } else {
            0int
        }),
        forall|k: int|
            0 <= k < r@.len() ==> {
                let m = full_lines(lines@, lines@.len(), ',', 3)[k + (if lines@.len() > 0 && fields(
                    lines@[0]@,
                    ',',
                ).len() >= 3 {
                    1int
                } else {
                    0int
                })];
                rocm_gpu(lines@[m]@, (m - 1) as usize, #[trigger] r@[k])
            },
{
    let mut out: Vec<GpuInfo> = Vec::new();
    if lines.len() == 0 {
        return out;
    }
    let first = split_fields(lines[0].as_str(), ',');
    let ghost skip: int = if fields(lines@[0]@, ',').len() >= 3 {
        1int
    } else {
        0int
    };
    assert(full_lines(lines@, 1, ',', 3).len() == skip) by {
        assert(full_lines(lines@, 0, ',', 3).len() == 0);
    }
    let mut i: usize = 1;
    while i < lines.len()
        invariant
            1 <= i <= lines@.len(),
            skip == (if fields(lines@[0]@, ',').len() >= 3 {
                1int
            } else {
                0int
            }),
            full_lines(lines@, 1, ',', 3).len() == skip,
            out@.len() == full_lines(lines@, i as nat, ',', 3).len() - skip,
            forall|k: int|
                0 <= k < out@.len() ==> {
                    let m = full_lines(lines@, i as nat, ',', 3)[k + skip];
                    rocm_gpu(lines@[m]@, (m - 1) as usize, #[trigger] out@[k])
                },
        decreases lines@.len() - i,
    {
        let ghost before = full_lines(lines@, i as nat, ',', 3);
        let parts = split_fields(lines[i].as_str(), ',');
        if parts.len() >= 3 {
            let vram = match parse_u64_str(parts[2].as_str()) {
                Some(v) => Some(v / 1024 / 1024),
                None => None,
            };
            out.push(
                GpuInfo {
                    index: i - 1,
                    name: parts[1].clone(),
                    vendor: GpuVendor::Amd,
                    backend: GpuBackend::Rocm,
                    vram_mb: vram,
                    driver_version: None,
                    compute_capability: None,
                    is_integrated: false,
                    pci_id: None,
                },
            );
            assert(full_lines(lines@, (i + 1) as nat, ',', 3) == before + seq![i as int]);
            proof {
                assert forall|k: int| 0 <= k < out@.len() implies {
                    let m = full_lines(lines@, (i + 1) as nat, ',', 3)[k + skip];
                    rocm_gpu(lines@[m]@, (m - 1) as usize, #[trigger] out@[k])
                } by {
                    if k < out@.len() - 1 {
                        assert(full_lines(lines@, (i + 1) as nat, ',', 3)[k + skip] == before[k + skip]);
                    } else {
                        assert(full_lines(lines@, (i + 1) as nat, ',', 3)[k + skip] == i);
                    }
                }
            }
        } else {
            assert(full_lines(lines@, (i + 1) as nat, ',', 3) =~= before);
        }
        i = i + 1;
    }
    out
}

/// The PCI id of an `lspci -nn` line: the text after its first `[` up to
/// the next `]` (or `[`, or the end).
pub open spec fn bracket_id(line: Seq<char>) -> Option<Seq<char>> {
    let a = find_char(line, '[', 0);
    if a >= line.len() {
        None
    } else {
        let rest = line.subrange(a + 1, line.len() as int);
        Some(before_char(rest.subrange(0, find_char(rest, '[', 0)), ']'))
    }
}

fn bracket_id_of(line: &str) -> (r: Option<String>)
    ensures
        match bracket_id(line@) {
            Some(v) => r matches Some(s) && s@ == v,
            None => r is None,
        },
{
    let n = line.unicode_len();
    let a = find_char_in(line, '[');
    proof {
        lemma_find_char(line@, '[', 0);
    }
    if a >= n {
        return None;
    }
    let rest = line.substring_char(a + 1, n);
    let b = find_char_in(rest, '[');
    proof {
        lemma_find_char(rest@, '[', 0);
    }
    let seg = rest.substring_char(0, b);
    let c = find_char_in(seg, ']');
    proof {
        lemma_find_char(seg@, ']', 0);
    }
    Some(String::from_str(seg.substring_char(0, c)))
}

/// An `lspci` line that describes a display controller.
pub open spec fn display_line(line: Seq<char>) -> bool {
    has_chars(fold(line), "vga"@) || has_chars(fold(line), "display"@)
}

/// An `lspci` display line of an AMD device.
pub open spec fn amd_line(line: Seq<char>) -> bool {
    display_line(line) && (has_infix(utf8(line), utf8("1002:"@)) || has_infix(
        utf8(line),
        utf8("AMD"@),
    ) || has_infix(utf8(line), utf8("ATI"@)))
}

/// An `lspci` display line of an Intel device.
pub open spec fn intel_line(line: Seq<char>) -> bool {
    display_line(line) && has_infix(utf8(line), utf8("8086:"@))
}

/// The GPU of `lspci` line number `index`, for the given vendor.
pub open spec fn lspci_gpu(line: Seq<char>, index: usize, amd: bool, g: GpuInfo) -> bool {
    &&& g.index == index
    &&& g.name@ == trim(line)
    &&& g.vendor == (if amd {
        GpuVendor::Amd
    } else {
        GpuVendor::Intel
    })
    &&& g.backend == (if amd {
        GpuBackend::Rocm
    } else {
        GpuBackend::OpenCl
    })
    &&& g.vram_mb is None
    &&& g.driver_version is None
    &&& g.compute_capability is None
    &&& g.is_integrated == (if amd {
        has_chars(fold(line), "integrated"@) || has_chars(fold(line), "apu"@)
    } else {
        true
    })
    &&& match bracket_id(line) {
        Some(v) => g.pci_id matches Some(s) && s@ == v,
        None => g.pci_id is None,
    }
}

/// Whether line `line` is an `lspci` GPU line of the vendor.
pub open spec fn vendor_line(line: Seq<char>, amd: bool) -> bool {
    if amd {
        amd_line(line)
    } else {
        intel_line(line)
    }
}

/// Positions, among the first `n` lines, of the vendor's GPU lines.
pub open spec fn vendor_lines(lines: Seq<String>, n: nat, amd: bool) -> Seq<int>
    decreases n,
{
    if n == 0 || n > lines.len() {
        Seq::empty()
    } else {
        vendor_lines(lines, (n - 1) as nat, amd) + if vendor_line(lines[n - 1]@, amd) {
            seq![n - 1]
        } else {
            Seq::empty()
        }
    }
}

/// The AMD (`amd`) or Intel GPUs of `lspci -nn` output, numbered by line.
pub fn parse_lspci(lines: &Vec<String>, amd: bool) -> (r: Vec<GpuInfo>)
    ensures
        r@.len() == vendor_lines(lines@, lines@.len(), amd).len(),
        forall|k: int|
            0 <= k < r@.len() ==> lspci_gpu(
                lines@[vendor_lines(lines@, lines@.len(), amd)[k]]@,
                vendor_lines(lines@, lines@.len(), amd)[k] as usize,
                amd,
                #[trigger] r@[k],
            ),
{
    let mut out: Vec<GpuInfo> = Vec::new();
    let mut i: usize = 0;
    while i < lines.len()
        invariant
            i <= lines@.len(),
            out@.len() == vendor_lines(lines@, i as nat, amd).len(),
            forall|k: int|
                0 <= k < out@.len() ==> lspci_gpu(
                    lines@[vendor_lines(lines@, i as nat, amd)[k]]@,
                    vendor_lines(lines@, i as nat, amd)[k] as usize,
                    amd,
                    #[trigger] out@[k],
                ),
        decreases lines@.len() - i,
    {
        let ghost before = vendor_lines(lines@, i as nat, amd);
        let line = lines[i].as_str();
        let folded = folded_chars(line);
        let display = folded_contains(&folded, "vga") || folded_contains(&folded, "display");
        let vendor_match = if amd {
            str_contains(line, "1002:") || str_contains(line, "AMD") || str_contains(line, "ATI")
        } else {
            str_contains(line, "8086:")
        };
        if display && vendor_match {
            let integrated = if amd {
                folded_contains(&folded, "integrated") || folded_contains(&folded, "apu")
            } else {
                true
            };
            out.push(
                GpuInfo {
                    index: i,
                    name: trim_str(line),
                    vendor: if amd {
                        GpuVendor::Amd
                    } else {
                        GpuVendor::Intel
                    },
                    backend: if amd {
                        GpuBackend::Rocm
                    } else {
                        GpuBackend::OpenCl
                    },
                    vram_mb: None,
                    driver_version: None,
                    compute_capability: None,
                    is_integrated: integrated,
                    pci_id: bracket_id_of(line),
                },
            );
            assert(vendor_lines(lines@, (i + 1) as nat, amd) == before + seq![i as int]);
            proof {
                assert forall|k: int| 0 <= k < out@.len() implies lspci_gpu(
                    lines@[vendor_lines(lines@, (i + 1) as nat, amd)[k]]@,
                    vendor_lines(lines@, (i + 1) as nat, amd)[k] as usize,
                    amd,
                    #[trigger] out@[k],
                ) by {
                    if k < out@.len() - 1 {
                        assert(vendor_lines(lines@, (i + 1) as nat, amd)[k] == before[k]);
                    }
                }
            }
        } else {
            assert(vendor_lines(lines@, (i + 1) as nat, amd) =~= before);
        }
        i = i + 1;
    }
    out
}

/// The text between the first and the second `:` of `l` (to the end when
/// there is no second), or nothing when `l` has no `:`.
pub open spec fn second_field(l: Seq<char>) -> Seq<char> {
    let a = find_char(l, ':', 0);
    if a >= l.len() {
        Seq::empty()
    } else {
        let rest = l.subrange(a + 1, l.len() as int);
        rest.subrange(0, find_char(rest, ':', 0))
    }
}

/// The first white-space separated word of `s`, if any.
pub open spec fn first_word(s: Seq<char>) -> Option<Seq<char>> {
    let a = skip_ws(s, 0);
    if a >= s.len() {
        None
    } else {
        Some(s.subrange(a, skip_word(s, a)))
    }
}

/// What `clinfo` tells of one device: its number, name, VRAM in MiB and
/// driver version.
pub type DeviceFacts = (nat, Seq<char>, Option<u64>, Option<Seq<char>>);

/// `l` starts with `p`.
pub open spec fn starts(l: Seq<char>, p: Seq<char>) -> bool {
    has_prefix(utf8(l), utf8(p))
}

/// Reading the first `n` lines of `clinfo` output: the devices finished,
/// the device being read, and the number of the next one.
pub open spec fn clinfo_run(lines: Seq<String>, n: nat) -> (Seq<DeviceFacts>, Option<DeviceFacts>, nat)
    decreases n,
{
    if n == 0 || n > lines.len() {
        (Seq::empty(), None, 0)
    } else {
        let (done, cur, idx) = clinfo_run(lines, (n - 1) as nat);
        let l = trim(lines[n - 1]@);
        if starts(l, "Platform Name"@) {
            (done, cur, idx)
        } else if starts(l, "Device Name"@) {
            let finished = match cur {
                Some(c) => done.push(c),
                None => done,
            };
            (finished, Some((idx, trim(second_field(l)), None, None)), idx + 1)
        } else if starts(l, "Global Memory Size"@) && cur is Some {
            let c = cur->0;
            match first_word(trim(second_field(l))) {
                Some(w) => match parse_u64(w) {
                    Some(b) => (done, Some((c.0, c.1, Some((b / 1024 / 1024) as u64), c.3)), idx),
                    None => (done, cur, idx),
                },
                None => (done, cur, idx),
            }
        } else if starts(l, "Driver Version"@) && cur is Some {
            let c = cur->0;
            (done, Some((c.0, c.1, c.2, Some(trim(second_field(l))))), idx)
        } else {
            (done, cur, idx)
        }
    }
}

/// The devices of `clinfo` output, in order.
pub open spec fn clinfo_devices(lines: Seq<String>) -> Seq<DeviceFacts> {
    let (done, cur, idx) = clinfo_run(lines, lines.len());
    match cur {
        Some(c) => done.push(c),
        None => done,
    }
}

/// `g` is the OpenCL GPU that `f` describes.
pub open spec fn opencl_gpu(f: DeviceFacts, g: GpuInfo) -> bool {
    &&& g.index == f.0
    &&& g.name@ == f.1
    &&& g.vendor == vendor_of_name(f.1)
    &&& g.backend == GpuBackend::OpenCl
    &&& g.vram_mb == f.2
    &&& match f.3 {
        Some(d) => g.driver_version matches Some(s) && s@ == d,
        None => g.driver_version is None,
    }
    &&& g.compute_capability is None
    &&& g.is_integrated == (has_chars(fold(f.1), "integrated"@) || has_chars(fold(f.1), "intel"@))
    &&& g.pci_id is None
}

proof fn lemma_clinfo_index(lines: Seq<String>, n: nat)
    requires
        n <= lines.len(),
    ensures
        clinfo_run(lines, n).2 <= n,
        clinfo_run(lines, n).1 matches Some(c) ==> c.0 < clinfo_run(lines, n).2,
    decreases n,
{
    if n > 0 {
        lemma_clinfo_index(lines, (n - 1) as nat);
    }
}

fn second_field_of(l: &str) -> (r: String)
    ensures
        r@ == second_field(l@),
{
    let n = l.unicode_len();
    let a = find_char_in(l, ':');
    proof {
        lemma_find_char(l@, ':', 0);
    }
    if a >= n {
        return String::new();
    }
    let rest = l.substring_char(a + 1, n);
    let b = find_char_in(rest, ':');
    proof {
        lemma_find_char(rest@, ':', 0);
    }
    String::from_str(rest.substring_char(0, b))
}

fn first_word_of(s: &str) -> (r: Option<String>)
    ensures
        match first_word(s@) {
            Some(w) => r matches Some(x) && x@ == w,
            None => r is None,
        },
{
    let n = s.unicode_len();
    let a = skip_ws_from(s, 0);
    proof {
        lemma_skip_ws(s@, 0);
    }
    if a >= n {
        return None;
    }
    let e = skip_word_from(s, a);
    proof {
        lemma_skip_word(s@, a as int);
    }
    Some(String::from_str(s.substring_char(a, e)))
}

/// The OpenCL GPU a `clinfo` device name starts.
fn opencl_device(index: usize, name: String) -> (r: GpuInfo)
    ensures
        opencl_gpu((index as nat, name@, None, None), r),
{
    let folded = folded_chars(name.as_str());
    let integrated = folded_contains(&folded, "integrated") || folded_contains(&folded, "intel");
    let vendor = detect_vendor_from_name(name.as_str());
    GpuInfo {
        index,
        name,
        vendor,
        backend: GpuBackend::OpenCl,
        vram_mb: None,
        driver_version: None,
        compute_capability: None,
        is_integrated: integrated,
        pci_id: None,
    }
}

/// The GPUs of `clinfo` output: a `Device Name` line starts a device,
/// `Global Memory Size` and `Driver Version` lines fill in the device being
/// read, and devices are numbered in order.
pub fn parse_clinfo(lines: &Vec<String>) -> (r: Vec<GpuInfo>)
    ensures
        r@.len() == clinfo_devices(lines@).len(),
        forall|k: int| 0 <= k < r@.len() ==> opencl_gpu(clinfo_devices(lines@)[k], #[trigger] r@[k]),
{
    let mut done: Vec<GpuInfo> = Vec::new();
    let mut cur: Option<GpuInfo> = None;
    let mut index: usize = 0;
    let mut i: usize = 0;
    while i < lines.len()
        invariant
            i <= lines@.len(),
            done@.len() == clinfo_run(lines@, i as nat).0.len(),
            forall|k: int|
                0 <= k < done@.len() ==> opencl_gpu(clinfo_run(lines@, i as nat).0[k], #[trigger] done@[k]),
            match clinfo_run(lines@, i as nat).1 {
                Some(c) => cur matches Some(g) && opencl_gpu(c, g),
                None => cur is None,
            },
            index == clinfo_run(lines@, i as nat).2,
        decreases lines@.len() - i,
    {
        proof {
            lemma_clinfo_index(lines@, i as nat);
        }
        let ghost st = clinfo_run(lines@, i as nat);
        let l = trim_str(lines[i].as_str());
        let ls = l.as_str();
        if str_starts_with(ls, "Platform Name") {
        } else if str_starts_with(ls, "Device Name") {
            match cur {
                Some(g) => {
                    done.push(g);
                },
                None => {},
            }
            let name = trim_str(second_field_of(ls).as_str());
            cur = Some(opencl_device(index, name));
            index = index + 1;
            proof {
                assert forall|k: int|
                    0 <= k < done@.len() implies opencl_gpu(
                    clinfo_run(lines@, (i + 1) as nat).0[k],
                    #[trigger] done@[k],
                ) by {
                    if k < st.0.len() {
                        assert(clinfo_run(lines@, (i + 1) as nat).0[k] == st.0[k]);
                    }
                }
            }
        } else if str_starts_with(ls, "Global Memory Size") && cur.is_some() {
            let size = trim_str(second_field_of(ls).as_str());
            match first_word_of(size.as_str()) {
                Some(w) => match parse_u64_str(w.as_str()) {
                    Some(b) => {
                        cur = match cur {
                            Some(g) => Some(GpuInfo { vram_mb: Some(b / 1024 / 1024), ..g }),
                            None => None,
                        };
                    },
                    None => {},
                },
                None => {},
            }
        } else if str_starts_with(ls, "Driver Version") && cur.is_some() {
            let version = trim_str(second_field_of(ls).as_str());
            cur = match cur {
                Some(g) => Some(GpuInfo { driver_version: Some(version), ..g }),
                None => None,
            };
        }
        i = i + 1;
    }
    match cur {
        Some(g) => {
            done.push(g);
            proof {
                assert forall|k: int|
                    0 <= k < done@.len() implies opencl_gpu(clinfo_devices(lines@)[k], #[trigger] done@[k]) by {
                    if k < done@.len() - 1 {
                        assert(clinfo_devices(lines@)[k] == clinfo_run(lines@, lines@.len()).0[k]);
                    }
                }
            }
        },
        None => {},
    }
    done
}

/// The entry chosen at the GPU prompt among `count` GPUs (numbered from 1,
/// with `count + 1` for the CPU): the typed number after trimming; anything
/// that does not read as a listed number picks the first GPU. `None` stands
/// for the CPU.
pub open spec fn prompt_pick(count: nat, input: Seq<char>) -> Option<nat> {
    let c: nat = match parse_u64(trim(input)) {
        Some(v) => if v <= usize::MAX {
            v as nat
        } else {
            0
        },
        None => 0,
    };
    if c == 0 || c > count + 1 {
        Some(0)
    } else if c == count + 1 {
        None
    } else {
        Some((c - 1) as nat)
    }
}

/// The GPU picked at the prompt, by position, or `None` for the CPU.
pub fn prompt_selection(count: usize, input: &str) -> (r: Option<usize>)
    requires
        count < usize::MAX,
    ensures
        match prompt_pick(count as nat, input@) {
            Some(i) => r == Some(i as usize),
            None => r is None,
        },
{
    let t = trim_str(input);
    let c: usize = match parse_u64_str(t.as_str()) {
        Some(v) => if v <= usize::MAX as u64 {
            v as usize
        } else {
            0
        },
        None => 0,
    };
    if c == 0 || c > count + 1 {
        Some(0)
    } else if c == count + 1 {
        None
    } else {
        Some(c - 1)
    }
}

} // verus!
