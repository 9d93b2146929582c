//! What the controller learns about the target from `/proc`: its virtual
//! memory mappings, its file descriptor table, and its environment block.
//!
//! Reading the files is process I/O and happens outside the library; the
//! functions here interpret the bytes and records handed in.

use vstd::prelude::*;

verus! {

/// One virtual memory region `[start, end)` of the target process.
///
/// `phys_addr` is set exactly for regions the target has registered with KVM
/// as guest RAM; it is the guest physical address of the region's first byte.
#[derive(Debug)]
pub struct Mapping {
    /// First host-virtual address of the region.
    pub start: u64,
    /// One past the last host-virtual address of the region.
    pub end: u64,
    /// OS protection bits of the region, verbatim (`PROT_*`).
    pub prot_flags: i32,
    /// OS mapping flags of the region, verbatim (`MAP_*`).
    pub map_flags: i32,
    /// Offset of the region's first byte inside its backing file.
    pub offset: u64,
    /// Path of the backing file; empty for anonymous regions.
    pub pathname: String,
    /// Guest physical address of the region's first byte, for KVM
    /// memslot-backed regions.
    pub phys_addr: Option<u64>,
}

/// Two mappings hold the same data (paths compared by content).
pub open spec fn mapping_eq(a: Mapping, b: Mapping) -> bool {
    &&& a.start == b.start
    &&& a.end == b.end
    &&& a.prot_flags == b.prot_flags
    &&& a.map_flags == b.map_flags
    &&& a.offset == b.offset
    &&& a.pathname@ == b.pathname@
    &&& a.phys_addr == b.phys_addr
}

impl Clone for Mapping {
    fn clone(&self) -> (res: Mapping)
        ensures
            mapping_eq(res, *self),
    {
        Mapping {
            start: self.start,
            end: self.end,
            prot_flags: self.prot_flags,
            map_flags: self.map_flags,
            offset: self.offset,
            pathname: self.pathname.clone(),
            phys_addr: self.phys_addr,
        }
    }
}

impl Mapping {
    /// A region never ends before it starts.
    pub open spec fn wf(&self) -> bool {
        self.start <= self.end
    }

    /// Length of the region in bytes.
    pub open spec fn size(&self) -> int {
        self.end - self.start
    }

    pub fn len(&self) -> (n: u64)
        requires
            self.wf(),
        ensures
            n == self.size(),
    {
        self.end - self.start
    }
}

/// One entry of the target's file descriptor table: the descriptor number
/// and the text its `/proc/<pid>/fd/<n>` link points at.
#[derive(Clone, Debug)]
pub struct FdInfo {
    pub fd_num: i32,
    pub link: String,
}

/// Position of the first occurrence of `b` in `s` at or after `pos`, or
/// `s.len()` when there is none.
pub open spec fn find_from(s: Seq<u8>, pos: int, b: u8) -> int
    decreases s.len() - pos when 0 <= pos <= s.len()
{
    if pos >= s.len() {
        s.len() as int
    } else if s[pos] == b {
        pos
    } else {
        find_from(s, pos + 1, b)
    }
}

proof fn lemma_find_from_bounds(s: Seq<u8>, pos: int, b: u8)
    requires
        0 <= pos <= s.len(),
    ensures
        pos <= find_from(s, pos, b) <= s.len(),
        find_from(s, pos, b) < s.len() ==> s[find_from(s, pos, b)] == b,
    decreases s.len() - pos,
{
    if pos < s.len() && s[pos] != b {
        lemma_find_from_bounds(s, pos + 1, b);
    }
}

/// The name/value pairs of a NUL-delimited environment block, taken from
/// position `pos` on. Every NUL-delimited segment that contains `=` yields
/// the pair (text before the first `=`, text after it); segments without
/// `=` are skipped, as is an unterminated trailing segment's missing NUL.
pub open spec fn env_pairs_from(s: Seq<u8>, pos: int) -> Seq<(Seq<u8>, Seq<u8>)>
    decreases s.len() - pos when 0 <= pos <= s.len() via env_pairs_from_decreases
{
    if pos >= s.len() {
        seq![]
    } else {
        let seg_end = find_from(s, pos, 0);
        let seg = s.subrange(pos, seg_end);
        let next = if seg_end < s.len() { seg_end + 1 } else { seg_end };
        let rest = env_pairs_from(s, next);
        let eq = find_from(seg, 0, 61);  // 61 is '='
        if eq < seg.len() {
            seq![(seg.subrange(0, eq), seg.subrange(eq + 1, seg.len() as int))] + rest
        } else {
            rest
        }
    }
}

#[via_fn]
proof fn env_pairs_from_decreases(s: Seq<u8>, pos: int) {
    if 0 <= pos <= s.len() && pos < s.len() {
        lemma_find_from_bounds(s, pos, 0);
    }
}

/// The name/value pairs of a whole NUL-delimited environment block.
pub open spec fn env_pairs(s: Seq<u8>) -> Seq<(Seq<u8>, Seq<u8>)> {
    env_pairs_from(s, 0)
}

/// Views of a vector of byte-vector pairs.
pub open spec fn pair_views(v: Seq<(Vec<u8>, Vec<u8>)>) -> Seq<(Seq<u8>, Seq<u8>)> {
    v.map_values(|p: (Vec<u8>, Vec<u8>)| (p.0@, p.1@))
}

/// Splits the byte image of `/proc/<pid>/environ` into name/value pairs:
/// the block is NUL-delimited, and each segment holding an `=` contributes
/// the text before its first `=` as the name and the rest as the value.
pub fn parse_environ(s: &Vec<u8>) -> (r: Vec<(Vec<u8>, Vec<u8>)>)
    ensures
        pair_views(r@) == env_pairs(s@),
{
    let r = parse_environ_from(s, 0);
    proof {
        assert(pair_views(r@) =~= env_pairs(s@));
    }
    r
}

fn parse_environ_from(s: &Vec<u8>, pos: usize) -> (r: Vec<(Vec<u8>, Vec<u8>)>)
    requires
        pos <= s.len(),
    ensures
        pair_views(r@) =~= env_pairs_from(s@, pos as int),
    decreases s.len() - pos,
{
    if pos >= s.len() {
        let r: Vec<(Vec<u8>, Vec<u8>)> = Vec::new();
        assert(pair_views(r@) =~= env_pairs_from(s@, pos as int));
        return r;
    }
    // Find the end of the current NUL-delimited segment.
    let mut seg_end: usize = pos;
    while seg_end < s.len() && s[seg_end] != 0
        invariant
            pos <= seg_end <= s.len(),
            find_from(s@, pos as int, 0) == find_from(s@, seg_end as int, 0),
        decreases s.len() - seg_end,
    {
        seg_end = seg_end + 1;
    }
    proof {
        assert(find_from(s@, pos as int, 0) == seg_end as int);
    }
    // Copy the segment out.
    let mut seg: Vec<u8> = Vec::new();
    let mut k: usize = pos;
    while k < seg_end
        invariant
            pos <= k <= seg_end <= s.len(),
            seg@ =~= s@.subrange(pos as int, k as int),
        decreases seg_end - k,
    {
        seg.push(s[k]);
        proof {
            assert(seg@ =~= s@.subrange(pos as int, k as int + 1));
        }
        k = k + 1;
    }
    proof {
        assert(seg@ =~= s@.subrange(pos as int, seg_end as int));
    }
    // Find the first '=' inside the segment.
    let mut eq: usize = 0;
    while eq < seg.len() && seg[eq] != 61
        invariant
            0 <= eq <= seg.len(),
            find_from(seg@, 0, 61) == find_from(seg@, eq as int, 61),
        decreases seg.len() - eq,
    {
        eq = eq + 1;
    }
    proof {
        assert(find_from(seg@, 0, 61) == eq as int);
    }
    let next = if seg_end < s.len() { seg_end + 1 } else { seg_end };
    let rest = parse_environ_from(s, next);
    if eq < seg.len() {
        let mut name: Vec<u8> = Vec::new();
        let mut i: usize = 0;
        while i < eq
            invariant
                0 <= i <= eq < seg.len(),
                name@ =~= seg@.subrange(0, i as int),
            decreases eq - i,
        {
            name.push(seg[i]);
            proof {
                assert(name@ =~= seg@.subrange(0, i as int + 1));
            }
            i = i + 1;
        }
        let mut value: Vec<u8> = Vec::new();
        let mut j: usize = eq + 1;
        while j < seg.len()
            invariant
                eq + 1 <= j <= seg.len(),
                value@ =~= seg@.subrange(eq as int + 1, j as int),
            decreases seg.len() - j,
        {
            value.push(seg[j]);
            proof {
                assert(value@ =~= seg@.subrange(eq as int + 1, j as int + 1));
            }
            j = j + 1;
        }
        let mut r: Vec<(Vec<u8>, Vec<u8>)> = Vec::new();
        r.push((name, value));
        let mut rest = rest;
        let ghost rest_view = pair_views(rest@);
        let ghost one_view = pair_views(r@);
        r.append(&mut rest);
        proof {
            assert(pair_views(r@) =~= one_view + rest_view);
            assert(pair_views(r@) =~= env_pairs_from(s@, pos as int));
        }
        r
    } else {
        proof {
            assert(pair_views(rest@) =~= env_pairs_from(s@, pos as int));
        }
        rest
    }
}

} // verus!

verus! {

/// Position of the first `c` in `s` at or after `pos`, or `s.len()`.
pub open spec fn find_char_from(s: Seq<char>, pos: int, c: char) -> int
    decreases s.len() - pos when 0 <= pos <= s.len()
{
    if pos >= s.len() {
        s.len() as int
    } else if s[pos] == c {
        pos
    } else {
        find_char_from(s, pos + 1, c)
    }
}

proof fn lemma_find_char_from_bounds(s: Seq<char>, pos: int, c: char)
    requires
        0 <= pos <= s.len(),
    ensures
        pos <= find_char_from(s, pos, c) <= s.len(),
        find_char_from(s, pos, c) < s.len() ==> s[find_char_from(s, pos, c)] == c,
    decreases s.len() - pos,
{
    if pos < s.len() && s[pos] != c {
        lemma_find_char_from_bounds(s, pos + 1, c);
    }
}

/// The space-separated tokens of `s` from position `pos` on; runs of spaces
/// count as one separator.
pub open spec fn tokens_from(s: Seq<char>, pos: int) -> Seq<Seq<char>>
    decreases s.len() - pos when 0 <= pos <= s.len() via tokens_from_decreases
{
    if pos >= s.len() {
        seq![]
    } else if s[pos] == ' ' {
        tokens_from(s, pos + 1)
    } else {
        let e = find_char_from(s, pos, ' ');
        seq![s.subrange(pos, e)] + tokens_from(s, e)
    }
}

#[via_fn]
proof fn tokens_from_decreases(s: Seq<char>, pos: int) {
    if 0 <= pos < s.len() && s[pos] != ' ' {
        lemma_find_char_from_bounds(s, pos, ' ');
    }
}

/// Views of a vector of strings.
pub open spec fn token_views(v: Seq<String>) -> Seq<Seq<char>> {
    v.map_values(|t: String| t@)
}

/// Splits a text line into its space-separated tokens.
pub fn split_ws(s: &str) -> (r: Vec<String>)
    ensures
        token_views(r@) == tokens_from(s@, 0),
{
    let r = split_ws_from(s, 0);
    proof {
        assert(token_views(r@) =~= tokens_from(s@, 0));
    }
    r
}

fn split_ws_from(s: &str, pos: usize) -> (r: Vec<String>)
    requires
        pos <= s@.len(),
    ensures
        token_views(r@) =~= tokens_from(s@, pos as int),
    decreases s@.len() - pos,
{
    let n = s.unicode_len();
    if pos >= n {
        let r: Vec<String> = Vec::new();
        assert(token_views(r@) =~= tokens_from(s@, pos as int));
        return r;
    }
    if s.get_char(pos) == ' ' {
        return split_ws_from(s, pos + 1);
    }
    let mut e: usize = pos;
    while e < n && s.get_char(e) != ' '
        invariant
            pos <= e <= n,
            n == s@.len(),
            find_char_from(s@, pos as int, ' ') == find_char_from(s@, e as int, ' '),
        decreases n - e,
    {
        e = e + 1;
    }
    proof {
        assert(find_char_from(s@, pos as int, ' ') == e as int);
    }
    let token = String::from_str(s.substring_char(pos, e));
    let rest = split_ws_from(s, e);
    let mut r: Vec<String> = Vec::new();
    r.push(token);
    let mut rest = rest;
    let ghost rv = token_views(rest@);
    let ghost tv = token@;
    r.append(&mut rest);
    proof {
        assert(token_views(r@) =~= seq![tv] + rv);
    }
    r
}

/// Is `c` a hexadecimal digit?
pub open spec fn is_hex_digit(c: char) -> bool {
    (48 <= c as u32 <= 57) || (97 <= c as u32 <= 102) || (65 <= c as u32 <= 70)
}

/// Its value.
pub open spec fn hex_digit_val(c: char) -> int {
    if 48 <= c as u32 <= 57 {
        c as u32 - 48
    } else if 97 <= c as u32 <= 102 {
        c as u32 - 87
    } else {
        c as u32 - 55
    }
}

pub open spec fn all_hex(s: Seq<char>) -> bool {
    forall|i: int| 0 <= i < s.len() ==> is_hex_digit(s[i])
}

/// Value of a hexadecimal numeral, most significant digit first.
pub open spec fn hex_val(s: Seq<char>) -> int
    decreases s.len(),
{
    if s.len() == 0 {
        0
    } else {
        hex_val(s.drop_last()) * 16 + hex_digit_val(s.last())
    }
}

proof fn lemma_hex_val_step(s: Seq<char>, i: int)
    requires
        0 <= i < s.len(),
    ensures
        hex_val(s.subrange(0, i + 1)) == hex_val(s.subrange(0, i)) * 16 + hex_digit_val(s[i]),
{
    assert(s.subrange(0, i + 1).drop_last() =~= s.subrange(0, i));
    assert(s.subrange(0, i + 1).last() == s[i]);
}

proof fn lemma_hex_val_nonneg(s: Seq<char>)
    requires
        all_hex(s),
    ensures
        hex_val(s) >= 0,
    decreases s.len(),
{
    if s.len() > 0 {
        assert(all_hex(s.drop_last())) by {
            assert(forall|i: int| 0 <= i < s.len() - 1 ==> s.drop_last()[i] == s[i]);
        }
        lemma_hex_val_nonneg(s.drop_last());
    }
}

/// A hexadecimal numeral is worth at least any of its prefixes.
proof fn lemma_hex_val_mono(s: Seq<char>, i: int)
    requires
        0 <= i <= s.len(),
        all_hex(s),
    ensures
        hex_val(s) >= hex_val(s.subrange(0, i)),
        hex_val(s) >= 0,
    decreases s.len() - i,
{
    if i == s.len() {
        assert(s.subrange(0, i) =~= s);
        lemma_hex_val_nonneg(s);
    } else {
        lemma_hex_val_step(s, i);
        lemma_hex_val_nonneg(s.subrange(0, i));
        lemma_hex_val_mono(s, i + 1);
    }
}

/// Reads a whole string as a hexadecimal numeral (no prefix, either case).
/// `None` when it is empty, holds a non-digit, or overflows `u64`.
pub fn parse_hex(s: &str) -> (r: Option<u64>)
    ensures
        match r {
            Some(v) => s@.len() > 0 && all_hex(s@) && v == hex_val(s@),
            None => !(s@.len() > 0 && all_hex(s@) && hex_val(s@) <= u64::MAX),
        },
{
    let n = s.unicode_len();
    if n == 0 {
        return None;
    }
    let mut acc: u64 = 0;
    let mut i: usize = 0;
    while i < n
        invariant
            0 <= i <= n,
            n == s@.len(),
            forall|j: int| 0 <= j < i ==> is_hex_digit(s@[j]),
            acc == hex_val(s@.subrange(0, i as int)),
        decreases n - i,
    {
        let c = s.get_char(i);
        let code = c as u32;
        let d: u64 = if 48 <= code && code <= 57 {
            (code - 48) as u64
        } else if 97 <= code && code <= 102 {
            (code - 87) as u64
        } else if 65 <= code && code <= 70 {
            (code - 55) as u64
        } else {
            proof {
                assert(!is_hex_digit(s@[i as int]));
            }
            return None;
        };
        if acc > (u64::MAX - d) / 16 {
            proof {
                if all_hex(s@) {
                    lemma_hex_val_step(s@, i as int);
                    lemma_hex_val_mono(s@, i as int + 1);
                    assert(hex_val(s@.subrange(0, i as int)) * 16 + hex_digit_val(s@[i as int])
                        > u64::MAX) by {
                        assert(acc * 16 + d > u64::MAX) by (nonlinear_arith)
                            requires acc > (u64::MAX - d) / 16, d <= 15, acc >= 0;
                    };
                }
            }
            return None;
        }
        proof {
            lemma_hex_val_step(s@, i as int);
        }
        acc = acc * 16 + d;
        i = i + 1;
    }
    proof {
        assert(s@.subrange(0, n as int) =~= s@);
    }
    Some(acc)
}

} // verus!

verus! {

/// The memory-protection bits a `/proc/<pid>/maps` permission field names:
/// `PROT_READ`, `PROT_WRITE`, `PROT_EXEC`, verbatim.
pub open spec fn prot_of(perms: Seq<char>) -> int {
    (if perms[0] == 'r' { 1int } else { 0int }) + (if perms[1] == 'w' { 2int } else { 0int })
        + (if perms[2] == 'x' { 4int } else { 0int })
}

/// `MAP_PRIVATE` or `MAP_SHARED`, from the last permission character.
pub open spec fn map_flag_of(perms: Seq<char>) -> int {
    if perms[3] == 'p' { 2int } else { 1int }
}

/// A usable numeral: nonempty, hexadecimal, and within `u64`.
pub open spec fn hex_ok(s: Seq<char>) -> bool {
    s.len() > 0 && all_hex(s) && hex_val(s) <= u64::MAX
}

/// A well-formed maps line, as tokens: `start-end perms offset dev inode
/// [path ...]` with usable numerals, four permission characters ending in
/// `p` or `s`, and a region that does not end before it starts.
pub open spec fn maps_line_ok(toks: Seq<Seq<char>>) -> bool {
    &&& toks.len() >= 5
    &&& {
        let dash = find_char_from(toks[0], 0, '-');
        &&& dash < toks[0].len()
        &&& hex_ok(toks[0].subrange(0, dash))
        &&& hex_ok(toks[0].subrange(dash + 1, toks[0].len() as int))
        &&& hex_val(toks[0].subrange(0, dash)) <= hex_val(
            toks[0].subrange(dash + 1, toks[0].len() as int))
    }
    &&& toks[1].len() == 4
    &&& (toks[1][3] == 'p' || toks[1][3] == 's')
    &&& hex_ok(toks[2])
}

/// Parses one line of `/proc/<pid>/maps` into a mapping. `Some` exactly on
/// a well-formed line; the guest physical address starts out unset — KVM
/// memslot knowledge is added later from the hypervisor side. Of a path
/// holding spaces only the first word is kept.
#[verifier::loop_isolation(false)]
pub fn parse_maps_line(line: &str) -> (r: Option<Mapping>)
    ensures
        r is Some <==> maps_line_ok(tokens_from(line@, 0)),
        r matches Some(m) ==> {
            let toks = tokens_from(line@, 0);
            let dash = find_char_from(toks[0], 0, '-');
            &&& m.start == hex_val(toks[0].subrange(0, dash))
            &&& m.end == hex_val(toks[0].subrange(dash + 1, toks[0].len() as int))
            &&& m.prot_flags == prot_of(toks[1])
            &&& m.map_flags == map_flag_of(toks[1])
            &&& m.offset == hex_val(toks[2])
            &&& m.pathname@ == (if toks.len() >= 6 {
                toks[5]
            } else {
                Seq::<char>::empty()
            })
            &&& m.phys_addr is None
        },
{
    let toks = split_ws(line);
    if toks.len() < 5 {
        return None;
    }
    let t0 = toks[0].as_str();
    let t0n = t0.unicode_len();
    let mut dash: usize = 0;
    while dash < t0n && t0.get_char(dash) != '-'
        invariant
            0 <= dash <= t0n,
            find_char_from(t0@, 0, '-') == find_char_from(t0@, dash as int, '-'),
        decreases t0n - dash,
    {
        dash = dash + 1;
    }
    proof {
        assert(find_char_from(t0@, 0, '-') == dash as int);
    }
    if dash >= t0n {
        return None;
    }
    let start = match parse_hex(t0.substring_char(0, dash)) {
        Some(v) => v,
        None => {
            return None;
        },
    };
    let end = match parse_hex(t0.substring_char(dash + 1, t0n)) {
        Some(v) => v,
        None => {
            return None;
        },
    };
    if start > end {
        return None;
    }
    let t1 = toks[1].as_str();
    if t1.unicode_len() != 4 {
        return None;
    }
    let last = t1.get_char(3);
    if last != 'p' && last != 's' {
        return None;
    }
    let prot_flags: i32 = (if t1.get_char(0) == 'r' {
        1
    } else {
        0
    }) + (if t1.get_char(1) == 'w' {
        2
    } else {
        0
    }) + (if t1.get_char(2) == 'x' {
        4
    } else {
        0
    });
    let map_flags: i32 = if last == 'p' {
        2
    } else {
        1
    };
    let offset = match parse_hex(toks[2].as_str()) {
        Some(v) => v,
        None => {
            return None;
        },
    };
    let pathname = if toks.len() >= 6 {
        toks[5].clone()
    } else {
        String::new()
    };
    Some(Mapping { start, end, prot_flags, map_flags, offset, pathname, phys_addr: None })
}

} // verus!
