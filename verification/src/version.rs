//! Version information and semantic-version parsing.

use vstd::prelude::*;

verus! {

/// Minimum required version of the agent CLI.
pub const MIN_CLI_VERSION: &'static str = "2.0.0";

/// Version of the agent CLI that the SDK installs on demand.
pub const CLI_VERSION: &'static str = "2.1.38";

/// Environment variable that skips the version check.
pub const SKIP_VERSION_CHECK_ENV: &'static str = "CLAUDE_AGENT_SDK_SKIP_VERSION_CHECK";

/// Entrypoint identifier for the subprocess.
pub const ENTRYPOINT: &'static str = "sdk-rs";

/// An ASCII decimal digit.
pub open spec fn is_digit(c: char) -> bool {
    '0' <= c && c <= '9'
}

/// The numeric value of a string of decimal digits (most significant first).
pub open spec fn digits_value(d: Seq<char>) -> nat
    decreases d.len(),
{
    if d.len() == 0 {
        0
    } else {
        digits_value(d.drop_last()) * 10 + ((d.last() as nat) - ('0' as nat)) as nat
    }
}

/// `seg` without one leading `+` sign, if it has one.
pub open spec fn strip_plus(seg: Seq<char>) -> Seq<char> {
    if seg.len() > 0 && seg[0] == '+' {
        seg.drop_first()
    } else {
        seg
    }
}

/// Every character of `d` is an ASCII digit.
pub open spec fn all_digits(d: Seq<char>) -> bool {
    forall|i: int| 0 <= i < d.len() ==> is_digit(#[trigger] d[i])
}

/// The decimal parse of an unsigned 32-bit integer: an optional `+` sign followed by
/// one or more ASCII digits whose value fits in `u32`.
pub open spec fn spec_parse_u32(seg: Seq<char>) -> Option<u32> {
    let d = strip_plus(seg);
    if d.len() == 0 || !all_digits(d) {
        None
    } else if digits_value(d) <= u32::MAX {
        Some(digits_value(d) as u32)
    } else {
        None
    }
}

/// `s` with every leading `v` removed.
pub open spec fn trim_leading_v(s: Seq<char>) -> Seq<char>
    decreases s.len(),
{
    if s.len() > 0 && s[0] == 'v' {
        trim_leading_v(s.drop_first())
    } else {
        s
    }
}

/// The `.`-separated fields of `s`; there is always at least one field.
pub open spec fn split_dots(s: Seq<char>) -> Seq<Seq<char>>
    decreases s.len(),
{
    if s.len() == 0 {
        seq![Seq::<char>::empty()]
    } else {
        let init = split_dots(s.drop_last());
        if s.last() == '.' {
            init.push(Seq::<char>::empty())
        } else {
            init.update(init.len() - 1, init.last().push(s.last()))
        }
    }
}

/// `(major, minor, patch)` of a version string: leading `v`s are ignored, the
/// string must have at least three `.`-separated fields, and the first three
/// must each be a `u32`.
pub open spec fn spec_parse_version(s: Seq<char>) -> Option<(u32, u32, u32)> {
    let parts = split_dots(trim_leading_v(s));
    if parts.len() < 3 {
        None
    } else {
        match (spec_parse_u32(parts[0]), spec_parse_u32(parts[1]), spec_parse_u32(parts[2])) {
            (Some(a), Some(b), Some(c)) => Some((a, b, c)),
            _ => None,
        }
    }
}

/// Lexicographic `>=` on version triples.
pub open spec fn version_ge(a: (u32, u32, u32), b: (u32, u32, u32)) -> bool {
    a.0 > b.0 || (a.0 == b.0 && (a.1 > b.1 || (a.1 == b.1 && a.2 >= b.2)))
}

/// Whether a version string meets the minimum `MIN_CLI_VERSION`.
pub open spec fn spec_check_version(s: Seq<char>) -> bool {
    match (spec_parse_version(s), spec_parse_version(MIN_CLI_VERSION@)) {
        (Some(v), Some(m)) => version_ge(v, m),
        _ => false,
    }
}

/// A character allowed in an install version string.
pub open spec fn is_version_char(c: char) -> bool {
    is_digit(c) || c == '.'
}

/// The characters of a string, in order.
pub fn str_to_chars(s: &str) -> (r: Vec<char>)
    ensures
        r@ == s@,
{
    let n = s.unicode_len();
    let mut r: Vec<char> = Vec::new();
    let mut i: usize = 0;
    while i < n
        invariant
            n == s@.len(),
            i <= n,
            r@ == s@.take(i as int),
        decreases n - i,
    {
        let c = s.get_char(i);
        r.push(c);
        i = i + 1;
        assert(r@ =~= s@.take(i as int));
    }
    assert(r@ =~= s@);
    r
}

proof fn lemma_digits_value_prefix_le(d: Seq<char>, k: int)
    requires
        0 <= k <= d.len(),
        all_digits(d),
    ensures
        digits_value(d.take(k)) <= digits_value(d),
    decreases d.len() - k,
{
    if k < d.len() {
        lemma_digits_value_prefix_le(d, k + 1);
        assert(d.take(k + 1).drop_last() =~= d.take(k));
    } else {
        assert(d.take(k) =~= d);
    }
}

/// Parses the decimal `u32` held in `seg`, as `str::parse::<u32>` does.
fn parse_u32_chars(seg: &Vec<char>) -> (r: Option<u32>)
    ensures
        r == spec_parse_u32(seg@),
{
    let n = seg.len();
    let start: usize = if n > 0 && seg[0] == '+' { 1 } else { 0 };
    let ghost d = strip_plus(seg@);
    assert(d =~= seg@.skip(start as int));
    if start == n {
        return None;
    }
    let mut acc: u64 = 0;
    let mut i: usize = start;
    while i < n
        invariant
            start <= i <= n,
            n == seg@.len(),
            d =~= seg@.skip(start as int),
            d == strip_plus(seg@),
            start < n,
            forall|j: int| 0 <= j < i - start ==> is_digit(#[trigger] d[j]),
            acc == digits_value(d.take(i - start)),
            acc <= u32::MAX,
        decreases n - i,
    {
        let c = seg[i];
        if !('0' <= c && c <= '9') {
            assert(!is_digit(d[i - start]));
            return None;
        }
        let v: u64 = (c as u64) - ('0' as u64);
        let ghost k = i - start;
        assert(d.take(k + 1).drop_last() =~= d.take(k));
        assert(d.take(k + 1).last() == c);
        acc = acc * 10 + v;
        i = i + 1;
        if acc > 0xffff_ffffu64 {
            proof {
                // Either a later character is not a digit, or the whole value overflows.
                if all_digits(d) {
                    lemma_digits_value_prefix_le(d, i - start);
                }
            }
            return None;
        }
    }
    assert(d.take(n - start) =~= d);
    Some(acc as u32)
}

/// The `.`-separated fields of `chars[start..]`.
fn split_fields(chars: &Vec<char>, start: usize) -> (r: Vec<Vec<char>>)
    requires
        start <= chars@.len(),
    ensures
        r@.len() == split_dots(chars@.skip(start as int)).len(),
        forall|j: int|
            0 <= j < r@.len() ==> (#[trigger] r@[j])@ == split_dots(chars@.skip(start as int))[j],
{
    let ghost s = chars@.skip(start as int);
    let n = chars.len();
    let mut segs: Vec<Vec<char>> = Vec::new();
    let mut cur: Vec<char> = Vec::new();
    let ghost mut fs: Seq<Seq<char>> = Seq::empty();
    let mut i: usize = start;
    assert(s.take(0) =~= Seq::<char>::empty());
    while i < n
        invariant
            start <= i <= n,
            n == chars@.len(),
            s == chars@.skip(start as int),
            segs@.len() == fs.len(),
            forall|j: int| 0 <= j < segs@.len() ==> (#[trigger] segs@[j])@ == fs[j],
            split_dots(s.take(i - start)) == fs.push(cur@),
        decreases n - i,
    {
        let c = chars[i];
        let ghost k = i - start;
        assert(s.take(k + 1).drop_last() =~= s.take(k));
        assert(s.take(k + 1).last() == c);
        if c == '.' {
            proof {
                fs = fs.push(cur@);
            }
            segs.push(cur);
            cur = Vec::new();
            assert(fs.push(cur@) =~= split_dots(s.take(k + 1)));
        } else {
            let ghost before = cur@;
            cur.push(c);
            assert(fs.push(cur@) =~= fs.push(before).update(fs.len() as int, before.push(c)));
        }
        i = i + 1;
    }
    assert(s.take(n - start) =~= s);
    let ghost last = cur@;
    segs.push(cur);
    proof {
        fs = fs.push(last);
    }
    segs
}

/// Parses a semantic version string into `(major, minor, patch)`.
///
/// Leading `v` characters are ignored; the string must have at least three
/// `.`-separated fields and the first three must each parse as a `u32`.
pub fn parse_version(version: &str) -> (r: Option<(u32, u32, u32)>)
    ensures
        r == spec_parse_version(version@),
{
    let chars = str_to_chars(version);
    let n = chars.len();
    let mut start: usize = 0;
    assert(chars@.skip(0) =~= chars@);
    while start < n && chars[start] == 'v'
        invariant
            start <= n,
            n == chars@.len(),
            trim_leading_v(chars@) == trim_leading_v(chars@.skip(start as int)),
        decreases n - start,
    {
        assert(chars@.skip(start as int).drop_first() =~= chars@.skip(start + 1));
        start = start + 1;
    }
    let fields = split_fields(&chars, start);
    let ghost parts = split_dots(trim_leading_v(version@));
    assert(trim_leading_v(chars@.skip(start as int)) == chars@.skip(start as int));
    if fields.len() < 3 {
        return None;
    }
    let a = parse_u32_chars(&fields[0]);
    let b = parse_u32_chars(&fields[1]);
    let c = parse_u32_chars(&fields[2]);
    assert(fields@[0]@ == parts[0]);
    assert(fields@[1]@ == parts[1]);
    assert(fields@[2]@ == parts[2]);
    match (a, b, c) {
        (Some(x), Some(y), Some(z)) => Some((x, y, z)),
        _ => None,
    }
}

/// The rendering `a.b.c` of a version triple, each field in decimal.
pub open spec fn rendered_version(a: u32, b: u32, c: u32) -> Seq<char> {
    crate::text::decimal(a as nat) + seq!['.'] + crate::text::decimal(b as nat) + seq!['.']
        + crate::text::decimal(c as nat)
}

/// No character of `t` is a dot.
pub open spec fn no_dot(t: Seq<char>) -> bool {
    forall|i: int| 0 <= i < t.len() ==> t[i] != '.'
}

/// A dot-free string is a single field.
proof fn lemma_split_dots_single(t: Seq<char>)
    requires
        no_dot(t),
    ensures
        split_dots(t) == seq![t],
    decreases t.len(),
{
    if t.len() == 0 {
        assert(t =~= Seq::<char>::empty());
    } else {
        lemma_split_dots_single(t.drop_last());
        assert(t.drop_last().push(t.last()) =~= t);
        assert(split_dots(t) =~= seq![t]);
    }
}

/// A dot followed by a dot-free string adds that string as a last field.
proof fn lemma_split_dots_append(p: Seq<char>, t: Seq<char>)
    requires
        no_dot(t),
    ensures
        split_dots(p.push('.') + t) == split_dots(p).push(t),
    decreases t.len(),
{
    let s = p.push('.') + t;
    if t.len() == 0 {
        assert(t =~= Seq::<char>::empty());
        assert(s =~= p.push('.'));
        assert(s.drop_last() =~= p);
    } else {
        lemma_split_dots_append(p, t.drop_last());
        assert(s.drop_last() =~= p.push('.') + t.drop_last());
        assert(s.last() == t.last());
        assert(t.drop_last().push(t.last()) =~= t);
        assert(split_dots(s) =~= split_dots(p).push(t));
    }
}

/// The decimal rendering of a `u32` parses back to it.
proof fn lemma_parse_u32_decimal(a: u32)
    ensures
        spec_parse_u32(crate::text::decimal(a as nat)) == Some(a),
        no_dot(crate::text::decimal(a as nat)),
        is_digit(crate::text::decimal(a as nat)[0]),
{
    let d = crate::text::decimal(a as nat);
    crate::text::lemma_decimal_digits(a as nat);
    assert(is_digit(d[0]));
    assert(strip_plus(d) == d);
    assert forall|i: int| 0 <= i < d.len() implies d[i] != '.' by {
        assert(is_digit(d[i]));
    }
}

/// A rendered version `a.b.c` parses back to `(a, b, c)`, with or without a
/// leading `v`.
pub proof fn lemma_parse_rendered_version(a: u32, b: u32, c: u32)
    ensures
        spec_parse_version(rendered_version(a, b, c)) == Some((a, b, c)),
        spec_parse_version(seq!['v'] + rendered_version(a, b, c)) == Some((a, b, c)),
{
    let da = crate::text::decimal(a as nat);
    let db = crate::text::decimal(b as nat);
    let dc = crate::text::decimal(c as nat);
    lemma_parse_u32_decimal(a);
    lemma_parse_u32_decimal(b);
    lemma_parse_u32_decimal(c);
    let s = rendered_version(a, b, c);
    let ab = da.push('.') + db;
    assert(s =~= ab.push('.') + dc);
    lemma_split_dots_single(da);
    lemma_split_dots_append(da, db);
    lemma_split_dots_append(ab, dc);
    assert(split_dots(s) =~= seq![da, db, dc]);
    assert(s[0] == da[0]);
    assert(trim_leading_v(s) == s);
    let vs = seq!['v'] + s;
    assert(vs.drop_first() =~= s);
    assert(trim_leading_v(vs) == trim_leading_v(s));
}

/// The three fields of `MIN_CLI_VERSION` are `(2, 0, 0)`.
pub proof fn lemma_min_cli_version()
    ensures
        spec_parse_version(MIN_CLI_VERSION@) == Some((2u32, 0u32, 0u32)),
{
    reveal_strlit("2.0.0");
    let s = MIN_CLI_VERSION@;
    assert(s =~= seq!['2', '.', '0', '.', '0']);
    assert(trim_leading_v(s) == s);
    reveal_with_fuel(split_dots, 6);
    let e = Seq::<char>::empty();
    assert(s.drop_last().drop_last().drop_last().drop_last() =~= seq!['2']);
    assert(s.drop_last().drop_last().drop_last().drop_last().drop_last() =~= e);
    assert(split_dots(seq!['2']) =~= seq![seq!['2']]) by {
        assert(seq!['2'].drop_last() =~= e);
        assert(e.push('2') =~= seq!['2']);
    }
    assert(s.drop_last().drop_last().drop_last() =~= seq!['2', '.']);
    assert(split_dots(seq!['2', '.']) =~= seq![seq!['2'], e]) by {
        assert(seq!['2', '.'].drop_last() =~= seq!['2']);
    }
    assert(s.drop_last().drop_last() =~= seq!['2', '.', '0']);
    assert(split_dots(seq!['2', '.', '0']) =~= seq![seq!['2'], seq!['0']]) by {
        assert(seq!['2', '.', '0'].drop_last() =~= seq!['2', '.']);
        assert(e.push('0') =~= seq!['0']);
    }
    assert(s.drop_last() =~= seq!['2', '.', '0', '.']);
    assert(split_dots(seq!['2', '.', '0', '.']) =~= seq![seq!['2'], seq!['0'], e]) by {
        assert(seq!['2', '.', '0', '.'].drop_last() =~= seq!['2', '.', '0']);
    }
    assert(split_dots(s) =~= seq![seq!['2'], seq!['0'], seq!['0']]) by {
        assert(e.push('0') =~= seq!['0']);
    }
    assert(strip_plus(seq!['2']) =~= seq!['2']);
    assert(strip_plus(seq!['0']) =~= seq!['0']);
    assert(seq!['2'].drop_last() =~= e);
    assert(seq!['0'].drop_last() =~= e);
    assert(digits_value(e) == 0);
    assert(seq!['2'].last() == '2');
    assert(('2' as nat) - ('0' as nat) == 2);
    assert(digits_value(seq!['2']) == 2);
    assert(digits_value(seq!['0']) == 0);
}

/// Checks whether a CLI version string meets the minimum `MIN_CLI_VERSION`.
pub fn check_version(cli_version: &str) -> (r: bool)
    ensures
        r == spec_check_version(cli_version@),
        r == (spec_parse_version(cli_version@) matches Some(v) && version_ge(v, (2, 0, 0))),
{
    proof {
        lemma_min_cli_version();
    }
    let (cli_maj, cli_min, cli_patch) = match parse_version(cli_version) {
        Some(v) => v,
        None => {
            return false;
        },
    };
    let (req_maj, req_min, req_patch) = match parse_version(MIN_CLI_VERSION) {
        Some(v) => v,
        None => {
            return false;
        },
    };
    if cli_maj > req_maj {
        return true;
    }
    if cli_maj < req_maj {
        return false;
    }
    if cli_min > req_min {
        return true;
    }
    if cli_min < req_min {
        return false;
    }
    cli_patch >= req_patch
}

/// Validates that a version string is non-empty and holds only digits and dots.
///
/// This keeps the version safe to interpolate into install commands.
pub fn validate_version_string(version: &str) -> (r: Result<(), String>)
    ensures
        r is Ok <==> (version@.len() > 0 && forall|i: int|
            0 <= i < version@.len() ==> is_version_char(#[trigger] version@[i])),
        version@.len() == 0 ==> (r matches Err(e) && e@ == "Version string is empty"@),
        version@.len() > 0 && r is Err ==> (r matches Err(e) && e@
            == "Version string contains invalid characters: '"@ + version@
            + "'. Only digits and dots are allowed."@),
{
    let n = version.unicode_len();
    if n == 0 {
        return Err(String::from_str("Version string is empty"));
    }
    let mut i: usize = 0;
    while i < n
        invariant
            n == version@.len(),
            i <= n,
            forall|j: int| 0 <= j < i ==> is_version_char(#[trigger] version@[j]),
        decreases n - i,
    {
        let c = version.get_char(i);
        if !(('0' <= c && c <= '9') || c == '.') {
            assert(!is_version_char(version@[i as int]));
            let mut msg = String::from_str("Version string contains invalid characters: '");
            msg.append(version);
            msg.append("'. Only digits and dots are allowed.");
            return Err(msg);
        }
        i = i + 1;
    }
    Ok(())
}

/// The name of a temporary file made unique by a process ID:
/// `{prefix}.{pid}{ext}`.
pub fn unique_tmp_name_for(prefix: &str, pid: u32, ext: &str) -> (r: String)
    ensures
        r@ == prefix@ + "."@ + crate::text::decimal(pid as nat) + ext@,
{
    let mut r = String::from_str(prefix);
    r.append(".");
    crate::text::push_decimal(&mut r, pid as u64);
    r.append(ext);
    r
}

/// A whitespace character in Unicode's `White_Space` property, as `char::is_whitespace` defines it.
pub open spec fn is_unicode_whitespace(c: char) -> bool {
    ('\u{9}' <= c && c <= '\u{d}') || c == ' ' || c == '\u{85}' || c == '\u{a0}' || c == '\u{1680}'
        || ('\u{2000}' <= c && c <= '\u{200a}') || c == '\u{2028}' || c == '\u{2029}'
        || c == '\u{202f}' || c == '\u{205f}' || c == '\u{3000}'
}

fn is_whitespace_char(c: char) -> (r: bool)
    ensures
        r == is_unicode_whitespace(c),
{
    ('\u{9}' <= c && c <= '\u{d}') || c == ' ' || c == '\u{85}' || c == '\u{a0}' || c == '\u{1680}'
        || ('\u{2000}' <= c && c <= '\u{200a}') || c == '\u{2028}' || c == '\u{2029}'
        || c == '\u{202f}' || c == '\u{205f}' || c == '\u{3000}'
}

/// The characters of `s` before its first newline.
pub open spec fn first_line(s: Seq<char>) -> Seq<char>
    decreases s.len(),
{
    if s.len() == 0 || s[0] == '\n' {
        Seq::empty()
    } else {
        seq![s[0]] + first_line(s.drop_first())
    }
}

/// `s` without its leading whitespace.
pub open spec fn skip_whitespace(s: Seq<char>) -> Seq<char>
    decreases s.len(),
{
    if s.len() > 0 && is_unicode_whitespace(s[0]) {
        skip_whitespace(s.drop_first())
    } else {
        s
    }
}

/// The leading run of non-whitespace characters of `s`.
pub open spec fn leading_token(s: Seq<char>) -> Seq<char>
    decreases s.len(),
{
    if s.len() == 0 || is_unicode_whitespace(s[0]) {
        Seq::empty()
    } else {
        seq![s[0]] + leading_token(s.drop_first())
    }
}

/// The version reported by `--version` output: the first whitespace-separated
/// word of the first line, if that line has one.
pub open spec fn spec_version_from_output(output: Seq<char>) -> Option<Seq<char>> {
    let t = leading_token(skip_whitespace(first_line(output)));
    if t.len() == 0 {
        None
    } else {
        Some(t)
    }
}

/// Extracts the version from the output of the CLI's `--version`: the first
/// whitespace-separated word of the first line.
pub fn version_from_output(output: &str) -> (r: Option<String>)
    ensures
        r matches Some(v) ==> spec_version_from_output(output@) == Some(v@),
        r is None ==> spec_version_from_output(output@) is None,
{
    let chars = str_to_chars(output);
    let n = chars.len();
    // The end of the first line.
    let mut end: usize = 0;
    assert(chars@.skip(0) =~= chars@);
    assert(chars@.take(0) + chars@ =~= chars@);
    while end < n && chars[end] != '\n'
        invariant
            end <= n,
            n == chars@.len(),
            first_line(chars@) == chars@.take(end as int) + first_line(chars@.skip(end as int)),
        decreases n - end,
    {
        assert(chars@.skip(end as int).drop_first() =~= chars@.skip(end + 1));
        assert(chars@.take(end + 1) =~= chars@.take(end as int) + seq![chars@[end as int]]);
        end = end + 1;
    }
    let ghost line = chars@.take(end as int);
    assert(first_line(chars@.skip(end as int)) =~= Seq::<char>::empty());
    assert(first_line(chars@) =~= line);
    // Skip leading whitespace.
    let mut start: usize = 0;
    assert(line.skip(0) =~= line);
    while start < end && is_whitespace_char(chars[start])
        invariant
            start <= end <= n,
            n == chars@.len(),
            line == chars@.take(end as int),
            skip_whitespace(line) == skip_whitespace(line.skip(start as int)),
        decreases end - start,
    {
        assert(line.skip(start as int).drop_first() =~= line.skip(start + 1));
        start = start + 1;
    }
    let ghost rest = line.skip(start as int);
    assert(skip_whitespace(rest) == rest);
    // Take the word.
    let mut stop: usize = start;
    assert(rest.skip(0) =~= rest);
    assert(chars@.subrange(start as int, start as int) =~= Seq::<char>::empty());
    while stop < end && !is_whitespace_char(chars[stop])
        invariant
            start <= stop <= end <= n,
            n == chars@.len(),
            line == chars@.take(end as int),
            rest == line.skip(start as int),
            leading_token(rest) == chars@.subrange(start as int, stop as int) + leading_token(
                rest.skip(stop - start),
            ),
        decreases end - stop,
    {
        let c = chars[stop];
        let ghost k = stop - start;
        assert(rest.skip(k).drop_first() =~= rest.skip(k + 1));
        assert(rest.skip(k)[0] == c);
        assert(leading_token(rest.skip(k)) =~= seq![c] + leading_token(rest.skip(k + 1)));
        assert(chars@.subrange(start as int, stop + 1) =~= chars@.subrange(start as int, stop as int)
            + seq![c]);
        stop = stop + 1;
    }
    assert(leading_token(rest.skip(stop - start)) =~= Seq::<char>::empty());
    assert(chars@.subrange(start as int, stop as int) =~= leading_token(rest));
    if stop == start {
        None
    } else {
        Some(String::from_str(output.substring_char(start, stop)))
    }
}

/// The first line of `s` is `s` up to its first newline, or all of `s`.
proof fn lemma_first_line_end(s: Seq<char>) -> (e: int)
    ensures
        0 <= e <= s.len(),
        first_line(s) == s.take(e),
        forall|j: int| 0 <= j < e ==> s[j] != '\n',
        e == s.len() || s[e] == '\n',
    decreases s.len(),
{
    if s.len() == 0 || s[0] == '\n' {
        assert(s.take(0) =~= Seq::<char>::empty());
        0
    } else {
        let e1 = lemma_first_line_end(s.drop_first());
        assert(seq![s[0]] + s.drop_first().take(e1) =~= s.take(e1 + 1));
        assert forall|j: int| 0 <= j < e1 + 1 implies s[j] != '\n' by {
            if j > 0 {
                assert(s[j] == s.drop_first()[j - 1]);
            }
        }
        e1 + 1
    }
}

/// Skipping leading whitespace drops exactly the leading run of whitespace.
proof fn lemma_skip_whitespace_start(s: Seq<char>) -> (p: int)
    ensures
        0 <= p <= s.len(),
        skip_whitespace(s) == s.skip(p),
        forall|j: int| 0 <= j < p ==> is_unicode_whitespace(s[j]),
        p == s.len() || !is_unicode_whitespace(s[p]),
    decreases s.len(),
{
    if s.len() > 0 && is_unicode_whitespace(s[0]) {
        let p1 = lemma_skip_whitespace_start(s.drop_first());
        assert(s.drop_first().skip(p1) =~= s.skip(p1 + 1));
        assert forall|j: int| 0 <= j < p1 + 1 implies is_unicode_whitespace(s[j]) by {
            if j > 0 {
                assert(s[j] == s.drop_first()[j - 1]);
            }
        }
        p1 + 1
    } else {
        assert(s.skip(0) =~= s);
        0
    }
}

/// The leading token is the whole leading run of non-whitespace characters.
proof fn lemma_leading_token_len(s: Seq<char>) -> (q: int)
    ensures
        0 <= q <= s.len(),
        leading_token(s) == s.take(q),
        forall|j: int| 0 <= j < q ==> !is_unicode_whitespace(s[j]),
        q == s.len() || is_unicode_whitespace(s[q]),
    decreases s.len(),
{
    if s.len() == 0 || is_unicode_whitespace(s[0]) {
        assert(s.take(0) =~= Seq::<char>::empty());
        0
    } else {
        let q1 = lemma_leading_token_len(s.drop_first());
        assert(seq![s[0]] + s.drop_first().take(q1) =~= s.take(q1 + 1));
        assert forall|j: int| 0 <= j < q1 + 1 implies !is_unicode_whitespace(s[j]) by {
            if j > 0 {
                assert(s[j] == s.drop_first()[j - 1]);
            }
        }
        q1 + 1
    }
}

/// The version read from `--version` output is a whole word: it starts at
/// `p`, after a run of whitespace that stays on the first line, holds no
/// whitespace, and ends at whitespace (a newline included) or at the end of
/// the output, so however long the word is, none of it is cut off. No version
/// is read only when the first line, which ends at `p`, holds nothing but
/// whitespace.
pub proof fn lemma_version_is_whole_first_word(output: Seq<char>) -> (p: int)
    ensures
        spec_version_from_output(output) matches Some(w) ==> {
            &&& 0 <= p && p + w.len() <= output.len()
            &&& w.len() > 0
            &&& output.subrange(p, p + w.len()) == w
            &&& forall|j: int|
                0 <= j < p ==> is_unicode_whitespace(#[trigger] output[j]) && output[j] != '\n'
            &&& forall|j: int| 0 <= j < w.len() ==> !is_unicode_whitespace(#[trigger] w[j])
            &&& (p + w.len() == output.len() || is_unicode_whitespace(output[p + w.len()]))
        },
        spec_version_from_output(output) is None ==> {
            &&& 0 <= p <= output.len()
            &&& (p == output.len() || output[p] == '\n')
            &&& forall|j: int| 0 <= j < p ==> is_unicode_whitespace(#[trigger] output[j])
        },
{
    let e = lemma_first_line_end(output);
    let line = output.take(e);
    let p = lemma_skip_whitespace_start(line);
    let rest = line.skip(p);
    let q = lemma_leading_token_len(rest);
    let w = rest.take(q);
    assert(w =~= output.subrange(p, p + q));
    if q > 0 {
        assert(spec_version_from_output(output) == Some(w));
        assert forall|j: int| 0 <= j < p implies is_unicode_whitespace(#[trigger] output[j])
            && output[j] != '\n' by {
            assert(output[j] == line[j]);
        }
        assert forall|j: int| 0 <= j < w.len() implies !is_unicode_whitespace(#[trigger] w[j]) by {
            assert(w[j] == rest[j]);
        }
        if p + q < e {
            assert(output[p + q] == rest[q]);
        } else if p + q < output.len() {
            assert(output[e] == '\n');
            assert(is_unicode_whitespace('\n'));
        }
        p
    } else {
        assert(leading_token(skip_whitespace(first_line(output))).len() == 0);
        if p < line.len() {
            assert(rest[0] == line[p]);
            assert(false);
        }
        assert forall|j: int| 0 <= j < e implies is_unicode_whitespace(#[trigger] output[j]) by {
            assert(output[j] == line[j]);
        }
        e
    }
}

/// A version string is accepted exactly when it is non-empty and each of its
/// characters is one of the ASCII digits `0` to `9` or a dot; a single
/// character other than these refuses it.
pub proof fn lemma_version_string_accepted(s: Seq<char>)
    ensures
        (s.len() > 0 && forall|i: int| 0 <= i < s.len() ==> is_version_char(#[trigger] s[i])) <==> (
        s.len() > 0 && forall|i: int|
            0 <= i < s.len() ==> (#[trigger] s[i] == '0' || s[i] == '1' || s[i] == '2' || s[i] == '3'
                || s[i] == '4' || s[i] == '5' || s[i] == '6' || s[i] == '7' || s[i] == '8' || s[i]
                == '9' || s[i] == '.')),
{
}

} // verus!
