//! Snapshot naming shared by the command line (`--persist`) and the
//! snapshot store, so both produce the same sortable
//! `sniffCSS/[domain]/[UTC]-[path]-[selector].<ext>` tree.
use crate::text::{
    all_digits, is_digit, before_any, chars_of, find_first, find_char, find_last, find_str, find_sub, is_alnum,
    is_alnum_exec, lemma_find_first, lemma_find_last, lower_seq, lower_vec, prefix_before_any,
    push_all, push_str, rfind_char, slice_of, string_of,
};
use crate::store::{lemma_text_lt_strict, text_lt};
use vstd::prelude::*;

verus! {

/// Default root directory (relative to the process working directory).
pub const DEFAULT_ROOT: &'static str = "sniffCSS";

/// Content of the `.gitignore` written into the snapshot root: a lone `*`
/// ignores everything inside the tree, the `.gitignore` included.
pub const GITIGNORE_CONTENT: &'static str = "*\n";

// ---------------------------------------------------------------------------
// Slugs
// ---------------------------------------------------------------------------

/// Characters a slug keeps as they are.
pub open spec fn slug_keeps(c: char) -> bool {
    is_alnum(c) || c == '.' || c == '-'
}

/// Characters trimmed from both ends of a slug.
pub open spec fn is_slug_sep(c: char) -> bool {
    c == '_' || c == '.' || c == '-'
}

/// Kept characters stay; every run of other characters becomes one `_`.
pub open spec fn collapse(raw: Seq<char>) -> Seq<char>
    decreases raw.len(),
{
    if raw.len() == 0 {
        Seq::empty()
    } else {
        let p = collapse(raw.drop_last());
        let c = raw.last();
        if slug_keeps(c) {
            p.push(c)
        } else if p.len() > 0 && p.last() == '_' {
            p
        } else {
            p.push('_')
        }
    }
}

pub open spec fn strip_seps_start(s: Seq<char>) -> Seq<char>
    decreases s.len(),
{
    if s.len() > 0 && is_slug_sep(s[0]) {
        strip_seps_start(s.drop_first())
    } else {
        s
    }
}

pub open spec fn strip_seps_end(s: Seq<char>) -> Seq<char>
    decreases s.len(),
{
    if s.len() > 0 && is_slug_sep(s.last()) {
        strip_seps_end(s.drop_last())
    } else {
        s
    }
}

/// The slug of `raw`: collapsed, stripped of separators at both ends,
/// then cut to at most `max` characters.
pub open spec fn slug_of(raw: Seq<char>, max: nat) -> Seq<char> {
    let t = strip_seps_end(strip_seps_start(collapse(raw)));
    if t.len() > max {
        t.take(max as int)
    } else {
        t
    }
}

/// Characters a slug is made of.
pub open spec fn slug_char(c: char) -> bool {
    slug_keeps(c) || c == '_'
}

/// A filesystem-safe shape: only slug characters, never two `_` in a row.
pub open spec fn slug_shaped(s: Seq<char>) -> bool {
    &&& forall|i: int| 0 <= i < s.len() ==> slug_char(#[trigger] s[i])
    &&& forall|i: int| 0 <= i < s.len() - 1 ==> !(#[trigger] s[i] == '_' && s[i + 1] == '_')
}

proof fn lemma_collapse_shaped(raw: Seq<char>)
    ensures
        slug_shaped(collapse(raw)),
    decreases raw.len(),
{
    if raw.len() > 0 {
        lemma_collapse_shaped(raw.drop_last());
        let p = collapse(raw.drop_last());
        let r = collapse(raw);
        assert forall|i: int| 0 <= i < r.len() implies slug_char(#[trigger] r[i]) by {
            if i < p.len() {
                assert(r[i] == p[i]);
            }
        }
        assert forall|i: int| 0 <= i < r.len() - 1 implies !(#[trigger] r[i] == '_' && r[i + 1]
            == '_') by {
            if i + 1 < p.len() {
                assert(r[i] == p[i] && r[i + 1] == p[i + 1]);
            }
        }
    }
}

proof fn lemma_window_shaped(s: Seq<char>, lo: int, hi: int)
    requires
        slug_shaped(s),
        0 <= lo <= hi <= s.len(),
    ensures
        slug_shaped(s.subrange(lo, hi)),
{
    let w = s.subrange(lo, hi);
    assert forall|i: int| 0 <= i < w.len() implies slug_char(#[trigger] w[i]) by {
        assert(w[i] == s[lo + i]);
    }
    assert forall|i: int| 0 <= i < w.len() - 1 implies !(#[trigger] w[i] == '_' && w[i + 1]
        == '_') by {
        assert(w[i] == s[lo + i] && w[i + 1] == s[lo + i + 1]);
    }
}

proof fn lemma_strip_start(s: Seq<char>)
    ensures
        strip_seps_start(s) == s.subrange(s.len() - strip_seps_start(s).len(), s.len() as int),
        strip_seps_start(s).len() <= s.len(),
        strip_seps_start(s).len() > 0 ==> !is_slug_sep(strip_seps_start(s)[0]),
    decreases s.len(),
{
    if s.len() > 0 && is_slug_sep(s[0]) {
        lemma_strip_start(s.drop_first());
        let t = strip_seps_start(s.drop_first());
        assert(s.drop_first().subrange(s.len() - 1 - t.len(), s.len() - 1) =~= s.subrange(
            s.len() - t.len(),
            s.len() as int,
        ));
    } else {
        assert(s.subrange(0, s.len() as int) =~= s);
    }
}

proof fn lemma_strip_end(s: Seq<char>)
    ensures
        strip_seps_end(s) == s.subrange(0, strip_seps_end(s).len() as int),
        strip_seps_end(s).len() <= s.len(),
        strip_seps_end(s).len() > 0 ==> !is_slug_sep(strip_seps_end(s).last()),
    decreases s.len(),
{
    if s.len() > 0 && is_slug_sep(s.last()) {
        lemma_strip_end(s.drop_last());
        let t = strip_seps_end(s.drop_last());
        assert(s.drop_last().subrange(0, t.len() as int) =~= s.subrange(0, t.len() as int));
    } else {
        assert(s.subrange(0, s.len() as int) =~= s);
    }
}

/// A slug is at most `max` characters of letters, digits, `.`, `-` and
/// `_`, never starts with `_`, `.` or `-`, and never holds two `_` in a
/// row.
pub proof fn lemma_slug_shape(raw: Seq<char>, max: nat)
    ensures
        slug_of(raw, max).len() <= max,
        slug_shaped(slug_of(raw, max)),
        slug_of(raw, max).len() > 0 ==> !is_slug_sep(slug_of(raw, max)[0]),
{
    let c = collapse(raw);
    lemma_collapse_shaped(raw);
    let a = strip_seps_start(c);
    lemma_strip_start(c);
    lemma_window_shaped(c, c.len() - a.len(), c.len() as int);
    let b = strip_seps_end(a);
    lemma_strip_end(a);
    lemma_window_shaped(a, 0, b.len() as int);
    let r = slug_of(raw, max);
    if b.len() > max {
        lemma_window_shaped(b, 0, max as int);
        assert(r =~= b.subrange(0, max as int));
    }
    if r.len() > 0 {
        assert(r[0] == b[0]);
        assert(b[0] == a[0]);
    }
}

proof fn lemma_collapse_settled(s: Seq<char>, k: int)
    requires
        slug_shaped(s),
        0 <= k <= s.len(),
    ensures
        collapse(s.take(k)) == s.take(k),
    decreases k,
{
    if k > 0 {
        lemma_collapse_settled(s, k - 1);
        assert(s.take(k).drop_last() =~= s.take(k - 1));
        assert(s.take(k).last() == s[k - 1]);
        assert(slug_char(s[k - 1]));
        if !slug_keeps(s[k - 1]) && k > 1 {
            assert(s.take(k - 1).last() == s[k - 2]);
            assert(!(s[k - 2] == '_' && s[k - 1] == '_'));
        }
        assert(s.take(k - 1).push(s[k - 1]) =~= s.take(k));
    } else {
        assert(s.take(0) =~= Seq::<char>::empty());
    }
}

/// A slug shorter than its limit does not end in `_`, `.` or `-` either,
/// and slugging it again gives it back unchanged.
pub proof fn lemma_slug_settled(raw: Seq<char>, max: nat)
    requires
        slug_of(raw, max).len() < max,
    ensures
        slug_of(raw, max).len() > 0 ==> !is_slug_sep(slug_of(raw, max).last()),
        slug_of(slug_of(raw, max), max) == slug_of(raw, max),
{
    lemma_slug_shape(raw, max);
    let c = collapse(raw);
    let a = strip_seps_start(c);
    let b = strip_seps_end(a);
    lemma_strip_end(a);
    let r = slug_of(raw, max);
    assert(r == b);
    lemma_collapse_settled(r, r.len() as int);
    assert(r.take(r.len() as int) =~= r);
    assert(strip_seps_start(r) == r);
    assert(strip_seps_end(r) == r);
}

fn slug_keeps_exec(c: char) -> (r: bool)
    ensures
        r == slug_keeps(c),
{
    is_alnum_exec(c) || c == '.' || c == '-'
}

fn is_slug_sep_exec(c: char) -> (r: bool)
    ensures
        r == is_slug_sep(c),
{
    c == '_' || c == '.' || c == '-'
}

/// `slug` on characters.
pub fn slug_chars(raw: &Vec<char>, max: usize) -> (r: Vec<char>)
    ensures
        r@ == slug_of(raw@, max as nat),
{
    let mut out: Vec<char> = Vec::new();
    let mut i: usize = 0;
    while i < raw.len()
        invariant
            i <= raw.len(),
            out@ == collapse(raw@.take(i as int)),
        decreases raw.len() - i,
    {
        assert(raw@.take(i + 1).drop_last() =~= raw@.take(i as int));
        let c = raw[i];
        if slug_keeps_exec(c) {
            out.push(c);
        } else if out.len() > 0 && out[out.len() - 1] == '_' {
        } else {
            out.push('_');
        }
        i = i + 1;
    }
    assert(raw@.take(raw.len() as int) =~= raw@);
    let ghost col = out@;
    let mut lo: usize = 0;
    assert(col.subrange(0, col.len() as int) =~= col);
    while lo < out.len() && is_slug_sep_exec(out[lo])
        invariant
            lo <= out.len(),
            out@ == col,
            strip_seps_start(col) == strip_seps_start(col.subrange(lo as int, col.len() as int)),
        decreases out.len() - lo,
    {
        assert(col.subrange(lo as int, col.len() as int).drop_first() =~= col.subrange(
            lo + 1,
            col.len() as int,
        ));
        lo = lo + 1;
    }
    let ghost mid = col.subrange(lo as int, col.len() as int);
    let mut hi: usize = out.len();
    while hi > lo && is_slug_sep_exec(out[hi - 1])
        invariant
            lo <= hi <= out.len(),
            out@ == col,
            mid == col.subrange(lo as int, col.len() as int),
            strip_seps_end(mid) == strip_seps_end(col.subrange(lo as int, hi as int)),
        decreases hi,
    {
        assert(col.subrange(lo as int, hi as int).drop_last() =~= col.subrange(lo as int, hi - 1));
        hi = hi - 1;
    }
    if hi - lo > max {
        assert(col.subrange(lo as int, hi as int).take(max as int) =~= col.subrange(
            lo as int,
            lo + max,
        ));
        slice_of(&out, lo, lo + max)
    } else {
        slice_of(&out, lo, hi)
    }
}

/// Collapse arbitrary text into a filesystem-safe slug.
pub fn slug(raw: &str, max: usize) -> (r: String)
    ensures
        r@ == slug_of(raw@, max as nat),
{
    string_of(slug_chars(&chars_of(raw), max))
}

// ---------------------------------------------------------------------------
// Domain and path of a URL
// ---------------------------------------------------------------------------

/// What follows the first `://` of `url` (all of it when there is none).
pub open spec fn after_scheme(url: Seq<char>) -> Seq<char> {
    match find_sub(url, "://"@) {
        Some(i) => url.skip(i + "://"@.len()),
        None => url,
    }
}

/// The host: the authority (up to the first `/`, `?` or `#`) after its
/// last `@`.
pub open spec fn host_of(url: Seq<char>) -> Seq<char> {
    let authority = before_any(after_scheme(url), "/?#"@);
    match find_last(authority, '@') {
        None => authority,
        Some(i) => authority.skip(i + 1),
    }
}

/// The lowercased slug of the host (at most 80 characters); `local` when
/// the URL has no `://` authority or its host slugs to nothing.
pub open spec fn domain_spec(url: Seq<char>) -> Seq<char> {
    let s = slug_of(host_of(url), 80);
    if find_sub(url, "://"@) is None || s.len() == 0 {
        "local"@
    } else {
        lower_seq(s)
    }
}

/// The path: from the first `/` before any query or fragment, `/` when
/// there is none.
pub open spec fn url_path(url: Seq<char>) -> Seq<char> {
    let p = before_any(after_scheme(url), "?#"@);
    match find_first(p, '/') {
        Some(i) => p.skip(i),
        None => "/"@,
    }
}

/// The slug of the path (at most 80 characters), or `index` when it is
/// empty.
pub open spec fn path_spec(url: Seq<char>) -> Seq<char> {
    let s = slug_of(url_path(url), 80);
    if s.len() == 0 {
        "index"@
    } else {
        s
    }
}

fn after_scheme_exec(u: &Vec<char>) -> (r: Vec<char>)
    ensures
        r@ == after_scheme(u@),
{
    let sep = chars_of("://");
    match find_str(u, "://") {
        Some(i) => {
            assert(sep@ == "://"@);
            assert(i + sep@.len() <= u@.len());
            assert(u@.subrange(i + sep@.len(), u@.len() as int) =~= u@.skip(i + sep@.len()));
            let ulen = u.len();
            slice_of(u, i + sep.len(), ulen)
        },
        None => {
            assert(u@.subrange(0, u@.len() as int) =~= u@);
            slice_of(u, 0, u.len())
        },
    }
}

/// Sanitized host of `url` (`localhost:3000` -> `localhost_3000`); `local`
/// for `file://` URLs and anything without an authority.
pub fn domain_of(url: &str) -> (r: String)
    ensures
        r@ == domain_spec(url@),
{
    let u = chars_of(url);
    if find_str(&u, "://").is_none() {
        return String::from_str("local");
    }
    let rest = after_scheme_exec(&u);
    let authority = prefix_before_any(&rest, "/?#");
    let host = match rfind_char(&authority, '@') {
        None => authority,
        Some(i) => {
            proof {
                lemma_find_last(authority@, '@');
            }
            assert(authority@.subrange(i + 1, authority@.len() as int) =~= authority@.skip(i + 1));
            slice_of(&authority, i + 1, authority.len())
        },
    };
    let s = slug_chars(&host, 80);
    if s.len() == 0 {
        String::from_str("local")
    } else {
        string_of(lower_vec(&s))
    }
}

/// Sanitized URL pathname (`/products/42` -> `products_42`); `index` for `/`.
pub fn path_of(url: &str) -> (r: String)
    ensures
        r@ == path_spec(url@),
{
    string_of(path_chars(&chars_of(url)))
}

fn path_chars(u: &Vec<char>) -> (r: Vec<char>)
    ensures
        r@ == path_spec(u@),
{
    let rest = after_scheme_exec(u);
    let p = prefix_before_any(&rest, "?#");
    let path = match find_char(&p, '/') {
        Some(i) => {
            proof {
                lemma_find_first(p@, '/');
            }
            assert(p@.subrange(i as int, p@.len() as int) =~= p@.skip(i as int));
            slice_of(&p, i, p.len())
        },
        None => chars_of("/"),
    };
    let s = slug_chars(&path, 80);
    if s.len() == 0 {
        chars_of("index")
    } else {
        s
    }
}

// ---------------------------------------------------------------------------
// UTC timestamps
// ---------------------------------------------------------------------------

/// The character of decimal digit `d % 10`.
pub open spec fn digit_char(d: nat) -> char {
    ((d % 10) + 48) as char
}

/// The decimal digits of `n`, without leading zeros.
pub open spec fn decimal(n: nat) -> Seq<char>
    decreases n,
{
    if n < 10 {
        seq![digit_char(n)]
    } else {
        decimal(n / 10).push(digit_char(n % 10))
    }
}

/// `n` in decimal, left-padded with zeros to at least `w` characters
/// (`format!("{n:0w$}")`).
pub open spec fn zero_padded(n: nat, w: nat) -> Seq<char> {
    let d = decimal(n);
    if d.len() >= w {
        d
    } else {
        Seq::new((w - d.len()) as nat, |_i: int| '0') + d
    }
}

fn digit(d: u64) -> (c: char)
    requires
        d < 10,
    ensures
        c == digit_char(d as nat),
{
    let b: u8 = (d as u8) + 48;
    b as char
}

pub(crate) fn decimal_chars(n: u64) -> (v: Vec<char>)
    ensures
        v@ == decimal(n as nat),
    decreases n,
{
    if n < 10 {
        let mut v: Vec<char> = Vec::new();
        v.push(digit(n));
        v
    } else {
        let mut v = decimal_chars(n / 10);
        v.push(digit(n % 10));
        v
    }
}

/// Appends `n`, zero-padded to `w` characters.
fn push_padded(v: &mut Vec<char>, n: u64, w: usize)
    ensures
        final(v)@ == old(v)@ + zero_padded(n as nat, w as nat),
{
    let d = decimal_chars(n);
    let ghost start = v@;
    if d.len() < w {
        let pad = w - d.len();
        let mut k: usize = 0;
        while k < pad
            invariant
                k <= pad,
                v@ == start + Seq::new(k as nat, |_i: int| '0'),
            decreases pad - k,
        {
            v.push('0');
            assert(v@ =~= start + Seq::new((k + 1) as nat, |_i: int| '0'));
            k = k + 1;
        }
    }
    let ghost mid = v@;
    push_all(v, &d);
    assert(v@ =~= start + zero_padded(n as nat, w as nat));
}

/// The proleptic Gregorian date `(year, month, day)` that is `z` days
/// after 1970-01-01, by the civil-from-days arithmetic over 400-year eras
/// of 146097 days that start on March 1st (`/` and `%` round toward
/// negative infinity here, as `div_euclid` and `rem_euclid` do).
pub open spec fn civil_from_days_spec(z: int) -> (int, u32, u32) {
    let zz = z + 719_468;
    let era = zz / 146_097;
    let doe = zz % 146_097;
    let yoe = (doe - doe / 1460 + doe / 36_524 - doe / 146_096) / 365;
    let y = yoe + era * 400;
    let doy = doe - (365 * yoe + yoe / 4 - yoe / 100);
    let mp = (5 * doy + 2) / 153;
    let d = (doy - (153 * mp + 2) / 5 + 1) as u32;
    let m = (if mp < 10 {
        mp + 3
    } else {
        mp - 9
    }) as u32;
    let y = if m <= 2 {
        y + 1
    } else {
        y
    };
    (y, m, d)
}

/// Bounds of the day-of-era arithmetic.
proof fn lemma_year_of_era(doe: int)
    requires
        0 <= doe < 146_097,
    ensures
        0 <= (doe - doe / 1460 + doe / 36_524 - doe / 146_096) / 365 < 400,
{
    assert(doe / 1460 <= doe) by (nonlinear_arith)
        requires
            0 <= doe,
    ;
    assert(doe / 146_096 <= doe / 36_524) by (nonlinear_arith)
        requires
            0 <= doe,
    ;
    assert(doe / 146_096 <= 1) by (nonlinear_arith)
        requires
            0 <= doe < 146_097,
    ;
    assert(doe / 36_524 <= 4) by (nonlinear_arith)
        requires
            0 <= doe < 146_097,
    ;
    let n = doe - doe / 1460 + doe / 36_524 - doe / 146_096;
    assert(0 <= n < 146_000);
    assert(0 <= n / 365 < 400) by (nonlinear_arith)
        requires
            0 <= n < 146_000,
    ;
}

/// `a / b`, rounding toward negative infinity.
fn div_floor(a: i64, b: i64) -> (q: i64)
    requires
        b > 0,
    ensures
        q == a / b,
{
    proof {
        lemma_div_floor_bounds(a as int, b as int);
    }
    match a.checked_div_euclid(b) {
        Some(q) => q,
        None => 0,
    }
}

proof fn lemma_div_floor_bounds(a: int, b: int)
    requires
        b > 0,
    ensures
        a >= 0 ==> 0 <= a / b <= a,
        a < 0 ==> a <= a / b < 0,
{
    if a >= 0 {
        assert(0 <= a / b <= a) by (nonlinear_arith)
            requires
                a >= 0,
                b > 0,
        ;
    } else {
        assert(a <= a / b < 0) by (nonlinear_arith)
            requires
                a < 0,
                b > 0,
        ;
    }
}

/// Days since 1970-01-01 to `(year, month, day)`.
pub fn civil_from_days(z: i64) -> (r: (i64, u32, u32))
    requires
        z <= i64::MAX - 719_468,
    ensures
        r.0 as int == civil_from_days_spec(z as int).0,
        r.1 == civil_from_days_spec(z as int).1,
        r.2 == civil_from_days_spec(z as int).2,
{
    let zz = z + 719_468;
    let era = div_floor(zz, 146_097);
    let doe = match zz.checked_rem_euclid(146_097) {
        Some(r) => r,
        None => 0,
    };
    assert(doe == zz % 146_097);
    proof {
        lemma_div_floor_bounds(zz as int, 146_097);
        assert(-63_200_000_000_000 <= zz / 146_097 <= 63_200_000_000_000) by (nonlinear_arith)
            requires
                i64::MIN <= zz <= i64::MAX,
        ;
        lemma_year_of_era(doe as int);
    }
    let n: i64 = doe - div_floor(doe, 1460) + div_floor(doe, 36_524) - div_floor(doe, 146_096);
    let yoe: i64 = div_floor(n, 365);
    let y: i64 = yoe + era * 400;
    let base: i64 = 365 * yoe + div_floor(yoe, 4) - div_floor(yoe, 100);
    let doy: i64 = doe - base;
    let mp: i64 = div_floor(5 * doy + 2, 153);
    proof {
        lemma_div_floor_bounds(5 * doy + 2, 153);
    }
    let d = (doy - div_floor(153 * mp + 2, 5) + 1) as u32;
    let m = (if mp < 10 {
        mp + 3
    } else {
        mp - 9
    }) as u32;
    let y = if m <= 2 {
        y + 1
    } else {
        y
    };
    (y, m, d)
}

/// At the Unix epoch the timestamp reads `19700101T000000Z`.
pub proof fn lemma_utc_epoch()
    ensures
        utc_text(0) == "19700101T000000Z"@,
{
    reveal_strlit("19700101T000000Z");
    let zz: int = 719_468;
    assert(zz / 146_097 == 4);
    assert(zz % 146_097 == 135_080);
    let doe: int = 135_080;
    assert(doe / 1460 == 92 && doe / 36_524 == 3 && doe / 146_096 == 0);
    assert(134_991int / 365 == 369);
    assert(1532int / 153 == 10);
    assert(1532int / 5 == 306);
    assert(civil_from_days_spec(0) == (1970int, 1u32, 1u32));
    reveal_with_fuel(decimal, 4);
    assert(decimal(1970) =~= seq!['1', '9', '7', '0']);
    assert(zero_padded(1970, 4) =~= seq!['1', '9', '7', '0']);
    assert(zero_padded(1, 2) =~= seq!['0', '1']);
    assert(zero_padded(0, 2) =~= seq!['0', '0']);
    assert(utc_text(0) =~= "19700101T000000Z"@);
}

/// The timestamp `YYYYMMDDTHHMMSSZ` of `secs` seconds after the Unix
/// epoch (the year is wider than four digits from year 10000 on).
pub open spec fn utc_text(secs: u64) -> Seq<char> {
    let days = secs / 86_400;
    let sod = secs % 86_400;
    let ymd = civil_from_days_spec(days as int);
    zero_padded(ymd.0 as nat, 4) + zero_padded(ymd.1 as nat, 2) + zero_padded(ymd.2 as nat, 2)
        + seq!['T'] + zero_padded((sod / 3600) as nat, 2) + zero_padded(((sod % 3600) / 60) as nat, 2)
        + zero_padded((sod % 60) as nat, 2) + seq!['Z']
}

/// The UTC timestamp of `secs` seconds after the Unix epoch.
pub fn utc_timestamp(secs: u64) -> (r: String)
    ensures
        r@ == utc_text(secs),
{
    let days = secs / 86_400;
    let sod = secs % 86_400;
    let (y, mo, d) = civil_from_days(days as i64);
    proof {
        let zz = days + 719_468;
        assert(zz / 146_097 >= 4) by (nonlinear_arith)
            requires
                zz >= 719_468,
        ;
        lemma_year_of_era(zz % 146_097);
    }
    assert(y >= 0);
    let mut v: Vec<char> = Vec::new();
    push_padded(&mut v, y as u64, 4);
    push_padded(&mut v, mo as u64, 2);
    push_padded(&mut v, d as u64, 2);
    v.push('T');
    push_padded(&mut v, sod / 3600, 2);
    push_padded(&mut v, (sod % 3600) / 60, 2);
    push_padded(&mut v, sod % 60, 2);
    v.push('Z');
    assert(v@ =~= utc_text(secs));
    string_of(v)
}

/// Seconds since the Unix epoch on the system clock
/// (`SystemTime::now().duration_since(UNIX_EPOCH)`, as whole seconds;
/// 0 when the clock reads earlier than the epoch). Nothing is promised of
/// the value: it is the time.
#[verifier::external_body]
fn unix_seconds() -> u64 {
    std::time::SystemTime::now().duration_since(std::time::UNIX_EPOCH).map(|d| d.as_secs()).unwrap_or(0)
}

/// Current UTC instant as `YYYYMMDDTHHMMSSZ`.
pub fn utc_now() -> (r: String)
    ensures
        exists|secs: u64| r@ == utc_text(secs),
{
    let secs = unix_seconds();
    utc_timestamp(secs)
}

/// The file name of a snapshot taken at `stamp`:
/// `[stamp]-[path]-[selector].<ext>`, the selector slugged to at most 40
/// characters.
pub open spec fn file_name_spec(stamp: Seq<char>, url: Seq<char>, selector: Seq<char>, ext: Seq<char>) -> Seq<char> {
    stamp + seq!['-'] + path_spec(url) + seq!['-'] + slug_of(selector, 40) + seq!['.'] + ext
}

/// The file name of a snapshot of `url`/`selector` taken at `stamp`.
pub fn snapshot_file_name_at(stamp: &str, url: &str, selector: &str, ext: &str) -> (r: String)
    ensures
        r@ == file_name_spec(stamp@, url@, selector@, ext@),
{
    let mut v: Vec<char> = Vec::new();
    push_str(&mut v, stamp);
    v.push('-');
    push_all(&mut v, &path_chars(&chars_of(url)));
    v.push('-');
    push_all(&mut v, &slug_chars(&chars_of(selector), 40));
    v.push('.');
    push_str(&mut v, ext);
    assert(v@ =~= file_name_spec(stamp@, url@, selector@, ext@));
    string_of(v)
}

/// `[UTC]-[path]-[selector].<ext>`: the leading timestamp makes file
/// listings sort chronologically across executions of the same target.
pub fn snapshot_file_name(url: &str, selector: &str, ext: &str) -> (r: String)
    ensures
        exists|secs: u64| r@ == file_name_spec(utc_text(secs), url@, selector@, ext@),
{
    let stamp = utc_now();
    snapshot_file_name_at(stamp.as_str(), url, selector, ext)
}


/// `YYYYMMDDTHHMMSS`: eight digits, `T`, six digits.
pub open spec fn is_timestamp_text(s: Seq<char>) -> bool {
    s.len() == 15 && all_digits(s.take(8)) && s[8] == 'T' && all_digits(s.skip(9))
}

// ---------------------------------------------------------------------------
// Ranges of the civil date and shape of the timestamp
// ---------------------------------------------------------------------------

/// Day of the March-based year for day `doe` of a 400-year era.
pub open spec fn day_of_year(doe: int) -> int {
    let yoe = (doe - doe / 1460 + doe / 36_524 - doe / 146_096) / 365;
    doe - (365 * yoe + yoe / 4 - yoe / 100)
}

#[verifier::spinoff_prover]
#[verifier::rlimit(60)]
proof fn lemma_day_of_year_in_century(doe: int, c: int)
    requires
        0 <= doe < 146_096,
        c == doe / 36_524,
    ensures
        0 <= day_of_year(doe) <= 365,
{
    let q = doe / 1460;
    let n = doe - q + c;
    let y = n / 365;
    let a = y / 4;
    let b = y / 100;
    assert(doe / 146_096 == 0);
    assert(1460 * q <= doe < 1460 * q + 1460);
    assert(36_524 * c <= doe < 36_524 * c + 36_524);
    assert(365 * y <= n < 365 * y + 365);
    assert(4 * a <= y < 4 * a + 4);
    assert(100 * b <= y < 100 * b + 100);
    assert(0 <= doe - (365 * y + a - b) <= 365);
}

/// Every day of an era falls on a day 0..=365 of its March-based year.
pub proof fn lemma_day_of_year(doe: int)
    requires
        0 <= doe < 146_097,
    ensures
        0 <= day_of_year(doe) <= 365,
{
    if doe < 146_096 {
        lemma_day_of_year_in_century(doe, doe / 36_524);
    } else {
        assert(day_of_year(doe) == 365);
    }
}

/// The month and day that `civil_from_days` gives are a month 1..=12 and
/// a day 1..=31, and the year is at least 1600 for days on or after the
/// epoch.
pub proof fn lemma_civil_ranges(z: int)
    ensures
        1 <= civil_from_days_spec(z).1 <= 12,
        1 <= civil_from_days_spec(z).2 <= 31,
        z >= 0 ==> civil_from_days_spec(z).0 >= 1600,
{
    let zz = z + 719_468;
    let doe = zz % 146_097;
    lemma_day_of_year(doe);
    let doy = day_of_year(doe);
    let mp = (5 * doy + 2) / 153;
    assert(0 <= mp <= 11);
    assert(153 * mp <= 5 * doy + 2 < 153 * mp + 153);
    let t = (153 * mp + 2) / 5;
    assert(5 * t <= 153 * mp + 2 < 5 * t + 5);
    assert(1 <= doy - t + 1 <= 31);
    lemma_year_of_era(doe);
    if z >= 0 {
        assert(zz / 146_097 >= 4);
    }
}

/// The decimal digits of a number are ASCII digits, one more for each
/// factor of ten.
pub proof fn lemma_decimal(n: nat)
    ensures
        all_digits(decimal(n)),
        n < 10 ==> decimal(n).len() == 1,
        10 <= n < 100 ==> decimal(n).len() == 2,
        100 <= n < 1000 ==> decimal(n).len() == 3,
        1000 <= n < 10_000 ==> decimal(n).len() == 4,
        decimal(n).len() >= 1,
    decreases n,
{
    if n >= 10 {
        lemma_decimal(n / 10);
        let d = decimal(n);
        assert forall|i: int| 0 <= i < d.len() implies is_digit(#[trigger] d[i]) by {
            if i < d.len() - 1 {
                assert(d[i] == decimal(n / 10)[i]);
            }
        }
    }
}

/// `zero_padded(n, w)` is `w` ASCII digits when `n` has at most `w`.
pub proof fn lemma_zero_padded(n: nat, w: nat)
    requires
        decimal(n).len() <= w,
    ensures
        zero_padded(n, w).len() == w,
        all_digits(zero_padded(n, w)),
{
    lemma_decimal(n);
    let d = decimal(n);
    if d.len() < w {
        let z = zero_padded(n, w);
        let pad = Seq::new((w - d.len()) as nat, |_i: int| '0');
        assert(z == pad + d);
        assert forall|i: int| 0 <= i < z.len() implies is_digit(#[trigger] z[i]) by {
            if i < pad.len() {
                assert(z[i] == '0');
            } else {
                assert(z[i] == d[i - pad.len()]);
            }
        }
    }
}

/// Before the year 10000, the timestamp is `YYYYMMDDTHHMMSS` and `Z`.
pub proof fn lemma_utc_text_shape(secs: u64)
    requires
        secs < 253_402_300_800,
    ensures
        utc_text(secs).len() == 16,
        is_timestamp_text(utc_text(secs).take(15)),
        utc_text(secs)[15] == 'Z',
{
    let days = secs / 86_400;
    let sod = secs % 86_400;
    let ymd = civil_from_days_spec(days as int);
    lemma_civil_ranges(days as int);
    lemma_year_before_10000(days as int);
    let y = ymd.0 as nat;
    let parts = seq![
        zero_padded(y, 4),
        zero_padded(ymd.1 as nat, 2),
        zero_padded(ymd.2 as nat, 2),
    ];
    lemma_decimal(y);
    lemma_decimal(ymd.1 as nat);
    lemma_decimal(ymd.2 as nat);
    lemma_decimal((sod / 3600) as nat);
    lemma_decimal(((sod % 3600) / 60) as nat);
    lemma_decimal((sod % 60) as nat);
    lemma_zero_padded(y, 4);
    lemma_zero_padded(ymd.1 as nat, 2);
    lemma_zero_padded(ymd.2 as nat, 2);
    lemma_zero_padded((sod / 3600) as nat, 2);
    lemma_zero_padded(((sod % 3600) / 60) as nat, 2);
    lemma_zero_padded((sod % 60) as nat, 2);
    let t = utc_text(secs);
    let a = zero_padded(y, 4);
    let b = zero_padded(ymd.1 as nat, 2);
    let c = zero_padded(ymd.2 as nat, 2);
    let e = zero_padded((sod / 3600) as nat, 2);
    let f = zero_padded(((sod % 3600) / 60) as nat, 2);
    let g = zero_padded((sod % 60) as nat, 2);
    assert(t =~= a + b + c + seq!['T'] + e + f + g + seq!['Z']);
    let u = t.take(15);
    assert(u.take(8) =~= a + b + c);
    assert(u.skip(9) =~= e + f + g);
    assert forall|i: int| 0 <= i < 8 implies is_digit(#[trigger] u.take(8)[i]) by {
        if i < 4 {
            assert(u.take(8)[i] == a[i]);
        } else if i < 6 {
            assert(u.take(8)[i] == b[i - 4]);
        } else {
            assert(u.take(8)[i] == c[i - 6]);
        }
    }
    assert forall|i: int| 0 <= i < 6 implies is_digit(#[trigger] u.skip(9)[i]) by {
        if i < 2 {
            assert(u.skip(9)[i] == e[i]);
        } else if i < 4 {
            assert(u.skip(9)[i] == f[i - 2]);
        } else {
            assert(u.skip(9)[i] == g[i - 4]);
        }
    }
}

/// Days before 2932897 (year 10000) have a year of at most 9999.
proof fn lemma_year_before_10000(days: int)
    requires
        0 <= days < 2_932_897,
    ensures
        civil_from_days_spec(days).0 <= 9999,
{
    let zz = days + 719_468;
    let era = zz / 146_097;
    let doe = zz % 146_097;
    assert(4 <= era <= 24);
    lemma_year_of_era(doe);
    lemma_day_of_year(doe);
    if era == 24 {
        assert(doe <= 146_036);
        let c = doe / 36_524;
        let q = doe / 1460;
        let n = doe - q + c - doe / 146_096;
        let yoe = n / 365;
        assert(doe / 146_096 == 0);
        assert(1460 * q <= doe < 1460 * q + 1460);
        assert(36_524 * c <= doe < 36_524 * c + 36_524);
        assert(365 * yoe <= n < 365 * yoe + 365);
        let doy = doe - (365 * yoe + yoe / 4 - yoe / 100);
        assert(yoe == 399 ==> doy <= 305);
        let mp = (5 * doy + 2) / 153;
        assert(yoe == 399 ==> mp <= 9);
    }
}

// ---------------------------------------------------------------------------
// The civil date is the calendar date
// ---------------------------------------------------------------------------

/// Gregorian leap years.
pub open spec fn is_leap(y: int) -> bool {
    (y % 4 == 0 && y % 100 != 0) || y % 400 == 0
}

pub open spec fn days_in_month(y: int, m: int) -> int {
    if m == 2 {
        if is_leap(y) {
            29
        } else {
            28
        }
    } else if m == 4 || m == 6 || m == 9 || m == 11 {
        30
    } else {
        31
    }
}

/// Days of the months of year `y` before month `m`.
pub open spec fn days_before_month(y: int, m: int) -> int {
    let leap_day: int = if m > 2 && is_leap(y) {
        1
    } else {
        0
    };
    let before: int = if m <= 1 {
        0
    } else if m == 2 {
        31
    } else if m == 3 {
        59
    } else if m == 4 {
        90
    } else if m == 5 {
        120
    } else if m == 6 {
        151
    } else if m == 7 {
        181
    } else if m == 8 {
        212
    } else if m == 9 {
        243
    } else if m == 10 {
        273
    } else if m == 11 {
        304
    } else {
        334
    };
    leap_day + before
}

/// Days from January 1st of year 0 to January 1st of year `y`: 365 a
/// year plus one for each leap year before `y`.
pub open spec fn days_before_year(y: int) -> int {
    365 * y + (y + 3) / 4 - (y + 99) / 100 + (y + 399) / 400
}

/// Days from 1970-01-01 to the date `y-m-d` of the proleptic Gregorian
/// calendar.
pub open spec fn days_from_civil(y: int, m: int, d: int) -> int {
    days_before_year(y) + days_before_month(y, m) + d - 1 - days_before_year(1970)
}

/// Days of a March-based year before its month `mp` (0 is March).
pub open spec fn march_days_before(mp: int) -> int {
    if mp <= 0 {
        0
    } else if mp == 1 {
        31
    } else if mp == 2 {
        61
    } else if mp == 3 {
        92
    } else if mp == 4 {
        122
    } else if mp == 5 {
        153
    } else if mp == 6 {
        184
    } else if mp == 7 {
        214
    } else if mp == 8 {
        245
    } else if mp == 9 {
        275
    } else if mp == 10 {
        306
    } else {
        337
    }
}

proof fn lemma_month_of_day(doy: int)
    requires
        0 <= doy <= 365,
    ensures
        0 <= (5 * doy + 2) / 153 <= 11,
        (153 * ((5 * doy + 2) / 153) + 2) / 5 == march_days_before((5 * doy + 2) / 153),
        march_days_before((5 * doy + 2) / 153) <= doy,
        (5 * doy + 2) / 153 < 11 ==> doy < march_days_before((5 * doy + 2) / 153 + 1),
{
    let mp = (5 * doy + 2) / 153;
    assert(153 * mp <= 5 * doy + 2 < 153 * mp + 153);
    assert(0 <= mp <= 11);
    if mp == 0 {
    } else if mp == 1 {
    } else if mp == 2 {
    } else if mp == 3 {
    } else if mp == 4 {
    } else if mp == 5 {
    } else if mp == 6 {
    } else if mp == 7 {
    } else if mp == 8 {
    } else if mp == 9 {
    } else if mp == 10 {
    } else {
    }
}

proof fn lemma_year_days(yoe: int)
    requires
        0 <= yoe < 400,
    ensures
        days_before_year(yoe) + (if is_leap(yoe) {
            1int
        } else {
            0int
        }) - 1 == 365 * yoe + yoe / 4 - yoe / 100,
        days_before_year(yoe + 1) == days_before_year(yoe) + 365 + (if is_leap(yoe) {
            1int
        } else {
            0int
        }),
{
    let a = yoe / 4;
    let b = yoe / 100;
    assert(4 * a <= yoe < 4 * a + 4);
    assert(100 * b <= yoe < 100 * b + 100);
}

#[verifier::spinoff_prover]
#[verifier::rlimit(40)]
proof fn lemma_era_date(doe: int, mp: int)
    requires
        0 <= doe < 146_097,
        mp == (5 * day_of_year(doe) + 2) / 153,
    ensures
        ({
            let yoe = (doe - doe / 1460 + doe / 36_524 - doe / 146_096) / 365;
            let doy = day_of_year(doe);
            let d = doy - (153 * mp + 2) / 5 + 1;
            let m = if mp < 10 {
                mp + 3
            } else {
                mp - 9
            };
            let y = if m <= 2 {
                yoe + 1
            } else {
                yoe
            };
            &&& 1 <= m <= 12
            &&& 1 <= d <= days_in_month(y, m)
            &&& days_before_year(y) + days_before_month(y, m) + d - 1 == doe + 60
        }),
{
    let yoe = (doe - doe / 1460 + doe / 36_524 - doe / 146_096) / 365;
    let doy = day_of_year(doe);
    lemma_day_of_year(doe);
    lemma_year_of_era(doe);
    lemma_month_of_day(doy);
    lemma_year_days(yoe);
    lemma_last_day_of_year(doe);
    assert(doy == doe - (365 * yoe + yoe / 4 - yoe / 100));
}

/// Day 365 of a March-based year only exists when the following February
/// has 29 days.
#[verifier::spinoff_prover]
#[verifier::rlimit(80)]
proof fn lemma_last_day_of_year(doe: int)
    requires
        0 <= doe < 146_097,
    ensures
        day_of_year(doe) <= 364 || is_leap((doe - doe / 1460 + doe / 36_524 - doe / 146_096) / 365 + 1),
{
    let c = doe / 36_524;
    let q = doe / 1460;
    let e = doe / 146_096;
    let n = doe - q + c - e;
    let yoe = n / 365;
    let a = yoe / 4;
    let b = yoe / 100;
    assert(1460 * q <= doe < 1460 * q + 1460);
    assert(36_524 * c <= doe < 36_524 * c + 36_524);
    assert(e == 1 <==> doe == 146_096);
    assert(365 * yoe <= n < 365 * yoe + 365);
    assert(4 * a <= yoe < 4 * a + 4);
    assert(100 * b <= yoe < 100 * b + 100);
    if doe - (365 * yoe + a - b) == 365 {
        assert((yoe + 1) % 4 == 0);
        assert((yoe + 1) % 100 != 0 || (yoe + 1) % 400 == 0);
    }
}

proof fn lemma_shift_eras(y: int, k: int)
    ensures
        days_before_year(y + 400 * k) == days_before_year(y) + 146_097 * k,
        is_leap(y + 400 * k) == is_leap(y),
{
    vstd::arithmetic::div_mod::lemma_hoist_over_denominator(y + 3, 100 * k, 4);
    assert(y + 400 * k + 3 == (y + 3) + (100 * k) * 4);
    vstd::arithmetic::div_mod::lemma_hoist_over_denominator(y + 99, 4 * k, 100);
    assert(y + 400 * k + 99 == (y + 99) + (4 * k) * 100);
    vstd::arithmetic::div_mod::lemma_hoist_over_denominator(y + 399, k, 400);
    assert(y + 400 * k + 399 == (y + 399) + k * 400);
    vstd::arithmetic::div_mod::lemma_mod_multiples_vanish(100 * k, y, 4);
    assert(4 * (100 * k) + y == y + 400 * k);
    vstd::arithmetic::div_mod::lemma_mod_multiples_vanish(4 * k, y, 100);
    assert(100 * (4 * k) + y == y + 400 * k);
    vstd::arithmetic::div_mod::lemma_mod_multiples_vanish(k, y, 400);
    assert(400 * k + y == y + 400 * k);
}

/// The date that `civil_from_days` gives for day `z` is a date of the
/// proleptic Gregorian calendar (month 1..=12, day within the month) and
/// lies exactly `z` days after 1970-01-01.
pub proof fn lemma_civil_from_days_is_calendar_date(z: int)
    ensures
        1 <= civil_from_days_spec(z).1 <= 12,
        1 <= civil_from_days_spec(z).2 <= days_in_month(
            civil_from_days_spec(z).0,
            civil_from_days_spec(z).1 as int,
        ),
        days_from_civil(
            civil_from_days_spec(z).0,
            civil_from_days_spec(z).1 as int,
            civil_from_days_spec(z).2 as int,
        ) == z,
{
    let zz = z + 719_468;
    let era = zz / 146_097;
    let doe = zz % 146_097;
    assert(zz == 146_097 * era + doe);
    let doy = day_of_year(doe);
    lemma_day_of_year(doe);
    let mp = (5 * doy + 2) / 153;
    lemma_era_date(doe, mp);
    let yoe = (doe - doe / 1460 + doe / 36_524 - doe / 146_096) / 365;
    let m = if mp < 10 {
        mp + 3
    } else {
        mp - 9
    };
    let y0 = if m <= 2 {
        yoe + 1
    } else {
        yoe
    };
    lemma_shift_eras(y0, era);
    assert(days_before_year(1970) == 719_528);
    let r = civil_from_days_spec(z);
    assert(r.1 as int == m);
    assert(r.0 == y0 + 400 * era);
}


// ---------------------------------------------------------------------------
// Later seconds give later timestamps
// ---------------------------------------------------------------------------

proof fn lemma_lt_concat(a1: Seq<char>, b1: Seq<char>, a2: Seq<char>, b2: Seq<char>)
    requires
        a1.len() == a2.len(),
    ensures
        text_lt(a1 + b1, a2 + b2) == (text_lt(a1, a2) || (a1 == a2 && text_lt(b1, b2))),
    decreases a1.len(),
{
    if a1.len() == 0 {
        assert(a1 + b1 =~= b1);
        assert(a2 + b2 =~= b2);
        assert(a1 =~= a2);
    } else {
        assert((a1 + b1)[0] == a1[0]);
        assert((a2 + b2)[0] == a2[0]);
        assert((a1 + b1).drop_first() =~= a1.drop_first() + b1);
        assert((a2 + b2).drop_first() =~= a2.drop_first() + b2);
        lemma_lt_concat(a1.drop_first(), b1, a2.drop_first(), b2);
        if a1[0] == a2[0] && a1.drop_first() == a2.drop_first() {
            assert(a1 =~= seq![a1[0]] + a1.drop_first());
            assert(a2 =~= seq![a2[0]] + a2.drop_first());
        }
        if a1 == a2 {
            assert(a1.drop_first() == a2.drop_first());
        }
    }
}

proof fn lemma_pad2(n: nat)
    requires
        n < 100,
    ensures
        zero_padded(n, 2) == seq![digit_char(n / 10), digit_char(n % 10)],
{
    reveal_with_fuel(decimal, 2);
    if n < 10 {
        assert(zero_padded(n, 2) =~= seq!['0', digit_char(n)]);
    } else {
        assert(decimal(n / 10) =~= seq![digit_char(n / 10)]);
        assert(zero_padded(n, 2) =~= seq![digit_char(n / 10), digit_char(n % 10)]);
    }
}

proof fn lemma_digit_char_order(x: nat, y: nat)
    requires
        x < 10,
        y < 10,
    ensures
        x < y ==> digit_char(x) < digit_char(y),
        x != y ==> digit_char(x) != digit_char(y),
{
    assert(x % 10 == x && y % 10 == y);
    assert(digit_char(x) as int == x + 48);
    assert(digit_char(y) as int == y + 48);
}

proof fn lemma_pad2_order(a: nat, b: nat)
    requires
        a < b < 100,
    ensures
        text_lt(zero_padded(a, 2), zero_padded(b, 2)),
{
    lemma_pad2(a);
    lemma_pad2(b);
    let x = zero_padded(a, 2);
    let y = zero_padded(b, 2);
    assert(a == 10 * (a / 10) + a % 10);
    assert(b == 10 * (b / 10) + b % 10);
    assert(x.drop_first() =~= seq![digit_char(a % 10)]);
    assert(y.drop_first() =~= seq![digit_char(b % 10)]);
    assert(x.drop_first().drop_first() =~= Seq::<char>::empty());
    assert(y.drop_first().drop_first() =~= Seq::<char>::empty());
    lemma_digit_char_order(a / 10, b / 10);
    lemma_digit_char_order(a % 10, b % 10);
    if a / 10 == b / 10 {
        assert(a % 10 < b % 10);
        assert(x[0] == y[0]);
        assert(text_lt(x.drop_first(), y.drop_first()));
    } else {
        assert(a / 10 < b / 10);
        assert(x[0] < y[0]);
    }
}

proof fn lemma_pad4(n: nat)
    requires
        n < 10_000,
    ensures
        zero_padded(n, 4) == zero_padded(n / 100, 2) + zero_padded(n % 100, 2),
{
    reveal_with_fuel(decimal, 4);
    lemma_pad2(n / 100);
    lemma_pad2(n % 100);
    assert(n == 100 * (n / 100) + n % 100);
    let hi = n / 100;
    let lo = n % 100;
    assert(hi == 10 * (hi / 10) + hi % 10);
    assert(lo == 10 * (lo / 10) + lo % 10);
    if n < 10 {
        assert(zero_padded(n, 4) =~= seq!['0', '0', '0', digit_char(n)]);
    } else if n < 100 {
        assert(decimal(n / 10) =~= seq![digit_char(n / 10)]);
        assert(zero_padded(n, 4) =~= seq!['0', '0', digit_char(n / 10), digit_char(n % 10)]);
    } else if n < 1000 {
        assert(decimal(n / 100) =~= seq![digit_char(n / 100)]);
        assert((n / 10) / 10 == n / 100);
        assert(decimal(n / 10) =~= seq![digit_char(n / 100), digit_char((n / 10) % 10)]);
        assert((n / 10) % 10 == lo / 10);
        assert(zero_padded(n, 4) =~= seq!['0', digit_char(n / 100), digit_char(lo / 10), digit_char(n % 10)]);
    } else {
        assert(decimal(n / 1000) =~= seq![digit_char(n / 1000)]);
        assert((n / 100) / 10 == n / 1000);
        assert((n / 10) / 10 == n / 100);
        assert(decimal(n / 100) =~= seq![digit_char(n / 1000), digit_char((n / 100) % 10)]);
        assert(decimal(n / 10) =~= seq![digit_char(n / 1000), digit_char((n / 100) % 10), digit_char((n / 10) % 10)]);
        assert((n / 10) % 10 == lo / 10);
        assert(zero_padded(n, 4) =~= seq![digit_char(hi / 10), digit_char(hi % 10), digit_char(lo / 10), digit_char(n % 10)]);
    }
    assert(n % 10 == lo % 10);
}


/// Two-digit fields written one after the other.
pub open spec fn pads(xs: Seq<nat>) -> Seq<char>
    decreases xs.len(),
{
    if xs.len() == 0 {
        Seq::empty()
    } else {
        zero_padded(xs[0], 2) + pads(xs.drop_first())
    }
}

/// `xs` comes before `ys` field by field.
pub open spec fn fields_lt(xs: Seq<nat>, ys: Seq<nat>) -> bool
    decreases xs.len(),
{
    xs.len() > 0 && ys.len() > 0 && (xs[0] < ys[0] || (xs[0] == ys[0] && fields_lt(xs.drop_first(), ys.drop_first())))
}

proof fn lemma_pads(xs: Seq<nat>, ys: Seq<nat>)
    requires
        xs.len() == ys.len(),
        forall|i: int| 0 <= i < xs.len() ==> #[trigger] xs[i] < 100,
        forall|i: int| 0 <= i < ys.len() ==> #[trigger] ys[i] < 100,
    ensures
        pads(xs).len() == 2 * xs.len(),
        fields_lt(xs, ys) ==> text_lt(pads(xs), pads(ys)),
        xs == ys ==> pads(xs) == pads(ys),
    decreases xs.len(),
{
    if xs.len() > 0 {
        let x1 = xs.drop_first();
        let y1 = ys.drop_first();
        assert forall|i: int| 0 <= i < x1.len() implies #[trigger] x1[i] < 100 by {
            assert(x1[i] == xs[i + 1]);
        }
        assert forall|i: int| 0 <= i < y1.len() implies #[trigger] y1[i] < 100 by {
            assert(y1[i] == ys[i + 1]);
        }
        lemma_pads(x1, y1);
        assert(xs[0] < 100 && ys[0] < 100);
        lemma_pad2(xs[0]);
        lemma_pad2(ys[0]);
        lemma_lt_concat(zero_padded(xs[0], 2), pads(x1), zero_padded(ys[0], 2), pads(y1));
        if xs[0] < ys[0] {
            lemma_pad2_order(xs[0], ys[0]);
        }
        if xs == ys {
            assert(x1 == y1);
        }
    }
}

proof fn lemma_year_step(y: int)
    requires
        y >= 0,
    ensures
        days_before_year(y + 1) == days_before_year(y) + 365 + if is_leap(y) {
            1int
        } else {
            0int
        },
{
}

proof fn lemma_years_apart(a: int, b: int)
    requires
        0 <= a <= b,
    ensures
        days_before_year(a) + 365 * (b - a) <= days_before_year(b),
    decreases b - a,
{
    if a < b {
        lemma_years_apart(a, b - 1);
        lemma_year_step(b - 1);
    }
}

proof fn lemma_months_apart(y: int, a: int, b: int)
    requires
        1 <= a < b <= 12,
    ensures
        days_before_month(y, a) + days_in_month(y, a) <= days_before_month(y, b),
    decreases b - a,
{
    if a + 1 < b {
        lemma_months_apart(y, a + 1, b);
    }
}

/// A later date of the calendar is a later day.
proof fn lemma_date_order(y1: int, m1: int, d1: int, y2: int, m2: int, d2: int)
    requires
        0 <= y1,
        0 <= y2,
        1 <= m1 <= 12,
        1 <= m2 <= 12,
        1 <= d1 <= days_in_month(y1, m1),
        1 <= d2 <= days_in_month(y2, m2),
        y1 > y2 || (y1 == y2 && m1 > m2) || (y1 == y2 && m1 == m2 && d1 >= d2),
    ensures
        days_from_civil(y1, m1, d1) >= days_from_civil(y2, m2, d2),
{
    if y1 > y2 {
        lemma_year_step(y2);
        lemma_years_apart(y2 + 1, y1);
        assert(days_before_month(y2, m2) + days_in_month(y2, m2) <= 365 + if is_leap(y2) {
            1int
        } else {
            0int
        });
    } else if m1 > m2 {
        lemma_months_apart(y1, m2, m1);
    }
}

/// The date fields of day `z`: the year's hundreds and rest, month, day.
pub open spec fn date_fields(z: int) -> Seq<nat> {
    let ymd = civil_from_days_spec(z);
    let y = ymd.0 as nat;
    seq![y / 100, y % 100, ymd.1 as nat, ymd.2 as nat]
}

/// The time fields of second `sod` of a day: hour, minute, second.
pub open spec fn time_fields(sod: int) -> Seq<nat> {
    seq![(sod / 3600) as nat, ((sod % 3600) / 60) as nat, (sod % 60) as nat]
}

/// The fields of the timestamp of `secs`.
pub open spec fn utc_fields(secs: u64) -> (Seq<nat>, Seq<nat>) {
    (date_fields((secs / 86_400) as int), time_fields((secs % 86_400) as int))
}

proof fn lemma_dates_ordered(z1: int, z2: int)
    requires
        0 <= z1 < z2,
    ensures
        fields_lt(date_fields(z1), date_fields(z2)),
{
    let c1 = civil_from_days_spec(z1);
    let c2 = civil_from_days_spec(z2);
    lemma_civil_from_days_is_calendar_date(z1);
    lemma_civil_from_days_is_calendar_date(z2);
    lemma_civil_ranges(z1);
    lemma_civil_ranges(z2);
    if !(c1.0 < c2.0 || (c1.0 == c2.0 && (c1.1 < c2.1 || (c1.1 == c2.1 && c1.2 < c2.2)))) {
        lemma_date_order(c1.0, c1.1 as int, c1.2 as int, c2.0, c2.1 as int, c2.2 as int);
    }
    let y1 = c1.0 as nat;
    let y2 = c2.0 as nat;
    assert(y1 == 100 * (y1 / 100) + y1 % 100);
    assert(y2 == 100 * (y2 / 100) + y2 % 100);
    reveal_with_fuel(fields_lt, 5);
}

proof fn lemma_times_ordered(a: int, b: int)
    requires
        0 <= a < b < 86_400,
    ensures
        fields_lt(time_fields(a), time_fields(b)),
{
    assert(a == 3600 * (a / 3600) + 60 * ((a % 3600) / 60) + a % 60);
    assert(b == 3600 * (b / 3600) + 60 * ((b % 3600) / 60) + b % 60);
    reveal_with_fuel(fields_lt, 4);
}

proof fn lemma_pads_cons(x: nat, rest: Seq<nat>)
    ensures
        pads(seq![x] + rest) == zero_padded(x, 2) + pads(rest),
{
    assert((seq![x] + rest).drop_first() =~= rest);
    assert((seq![x] + rest)[0] == x);
}

proof fn lemma_pads4(a: nat, b: nat, c: nat, d: nat)
    ensures
        pads(seq![a, b, c, d]) == zero_padded(a, 2) + zero_padded(b, 2) + zero_padded(c, 2) + zero_padded(d, 2),
{
    let e = Seq::<nat>::empty();
    assert(pads(e) == Seq::<char>::empty());
    lemma_pads_cons(d, e);
    assert(seq![d] + e =~= seq![d]);
    lemma_pads_cons(c, seq![d]);
    assert(seq![c] + seq![d] =~= seq![c, d]);
    lemma_pads_cons(b, seq![c, d]);
    assert(seq![b] + seq![c, d] =~= seq![b, c, d]);
    lemma_pads_cons(a, seq![b, c, d]);
    assert(seq![a] + seq![b, c, d] =~= seq![a, b, c, d]);
    assert(pads(seq![a, b, c, d]) =~= zero_padded(a, 2) + zero_padded(b, 2) + zero_padded(c, 2) + zero_padded(d, 2));
}

proof fn lemma_pads3(a: nat, b: nat, c: nat)
    ensures
        pads(seq![a, b, c]) == zero_padded(a, 2) + zero_padded(b, 2) + zero_padded(c, 2),
{
    let e = Seq::<nat>::empty();
    assert(pads(e) == Seq::<char>::empty());
    lemma_pads_cons(c, e);
    assert(seq![c] + e =~= seq![c]);
    lemma_pads_cons(b, seq![c]);
    assert(seq![b] + seq![c] =~= seq![b, c]);
    lemma_pads_cons(a, seq![b, c]);
    assert(seq![a] + seq![b, c] =~= seq![a, b, c]);
    assert(pads(seq![a, b, c]) =~= zero_padded(a, 2) + zero_padded(b, 2) + zero_padded(c, 2));
}

#[verifier::rlimit(40)]
proof fn lemma_utc_fields(secs: u64)
    requires
        secs < 253_402_300_800,
    ensures
        utc_text(secs) == pads(utc_fields(secs).0) + seq!['T'] + pads(utc_fields(secs).1) + seq!['Z'],
        forall|i: int| 0 <= i < 4 ==> #[trigger] utc_fields(secs).0[i] < 100,
        forall|i: int| 0 <= i < 3 ==> #[trigger] utc_fields(secs).1[i] < 100,
{
    let days = secs / 86_400;
    let sod = secs % 86_400;
    let ymd = civil_from_days_spec(days as int);
    lemma_civil_ranges(days as int);
    lemma_year_before_10000(days as int);
    let y = ymd.0 as nat;
    lemma_pad4(y);
    let h = (sod / 3600) as nat;
    let mi = ((sod % 3600) / 60) as nat;
    let se = (sod % 60) as nat;
    lemma_pads4(y / 100, y % 100, ymd.1 as nat, ymd.2 as nat);
    lemma_pads3(h, mi, se);
    let date = zero_padded(y, 4) + zero_padded(ymd.1 as nat, 2) + zero_padded(ymd.2 as nat, 2);
    let time = zero_padded(h, 2) + zero_padded(mi, 2) + zero_padded(se, 2);
    assert(date =~= zero_padded(y / 100, 2) + zero_padded(y % 100, 2) + zero_padded(ymd.1 as nat, 2)
        + zero_padded(ymd.2 as nat, 2));
    assert(utc_text(secs) =~= date + seq!['T'] + time + seq!['Z']);
}

proof fn lemma_stamp_order(d1: Seq<nat>, t1: Seq<nat>, d2: Seq<nat>, t2: Seq<nat>)
    requires
        d1.len() == 4,
        d2.len() == 4,
        t1.len() == 3,
        t2.len() == 3,
        forall|i: int| 0 <= i < 4 ==> #[trigger] d1[i] < 100,
        forall|i: int| 0 <= i < 4 ==> #[trigger] d2[i] < 100,
        forall|i: int| 0 <= i < 3 ==> #[trigger] t1[i] < 100,
        forall|i: int| 0 <= i < 3 ==> #[trigger] t2[i] < 100,
        fields_lt(d1, d2) || (d1 == d2 && fields_lt(t1, t2)),
    ensures
        text_lt(pads(d1) + seq!['T'] + pads(t1) + seq!['Z'], pads(d2) + seq!['T'] + pads(t2) + seq!['Z']),
{
    lemma_pads(d1, d2);
    lemma_pads(d2, d1);
    lemma_pads(t1, t2);
    lemma_pads(t2, t1);
    assert(pads(d1) + seq!['T'] + pads(t1) + seq!['Z'] =~= pads(d1) + (seq!['T'] + pads(t1) + seq!['Z']));
    assert(pads(d2) + seq!['T'] + pads(t2) + seq!['Z'] =~= pads(d2) + (seq!['T'] + pads(t2) + seq!['Z']));
    let rest1 = seq!['T'] + pads(t1) + seq!['Z'];
    let rest2 = seq!['T'] + pads(t2) + seq!['Z'];
    lemma_lt_concat(pads(d1), rest1, pads(d2), rest2);
    if !fields_lt(d1, d2) {
        let a1 = pads(t1) + seq!['Z'];
        let a2 = pads(t2) + seq!['Z'];
        assert(rest1 =~= seq!['T'] + a1);
        assert(rest2 =~= seq!['T'] + a2);
        lemma_lt_concat(seq!['T'], a1, seq!['T'], a2);
        lemma_lt_concat(pads(t1), seq!['Z'], pads(t2), seq!['Z']);
    }
}

/// A later second gives a later timestamp (before the year 10000), so
/// timestamps sort in the order of the seconds they stand for.
pub proof fn lemma_utc_text_ordered(s1: u64, s2: u64)
    requires
        s1 < s2,
        s2 < 253_402_300_800,
    ensures
        text_lt(utc_text(s1), utc_text(s2)),
{
    lemma_utc_fields(s1);
    lemma_utc_fields(s2);
    let z1 = (s1 / 86_400) as int;
    let z2 = (s2 / 86_400) as int;
    if z1 < z2 {
        lemma_dates_ordered(z1, z2);
    } else {
        lemma_times_ordered((s1 % 86_400) as int, (s2 % 86_400) as int);
    }
    lemma_stamp_order(utc_fields(s1).0, utc_fields(s1).1, utc_fields(s2).0, utc_fields(s2).1);
}

} // verus!
