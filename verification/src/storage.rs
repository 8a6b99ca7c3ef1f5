use vstd::prelude::*;
use crate::model::Sample;
use crate::text::{decimal, decimal_string};

verus! {

/// File of a project's settings, inside its directory.
pub const PROJECT_FILE: &'static str = "project.toml";

/// File of a project's devices, inside its directory.
pub const DEVICES_FILE: &'static str = "devices.toml";

/// File of a project's tags, inside its directory.
pub const TAGS_FILE: &'static str = "tags.toml";

/// Name of the directory of project `name`.
pub fn project_dir_name(name: &str) -> (r: String)
    ensures
        r@ == name@ + ".hcproj"@,
{
    String::from_str(name).concat(".hcproj")
}

/// `std::path::MAIN_SEPARATOR_STR`: the platform's path separator, which
/// std documents as `/` on Unix and `\` on Windows.
#[verifier::external_body]
fn main_separator() -> (r: &'static str)
    ensures
        r@ == "/"@ || r@ == "\\"@,
{
    std::path::MAIN_SEPARATOR_STR
}

/// Whether `dir` is a bare Windows drive, such as `C:`.
pub open spec fn is_drive(dir: Seq<char>) -> bool {
    &&& dir.len() == 2
    &&& dir[1] == ':'
    &&& ((65 <= dir[0] as u32 <= 90) || (97 <= dir[0] as u32 <= 122))
}

/// `name` inside directory `dir` on a platform whose separator is `sep`
/// (`/`, or `\` where `/` separates too): no separator is added when `dir`
/// is empty or already ends in one, nor, where the separator is `\`, after a
/// bare drive.
pub open spec fn joined(dir: Seq<char>, name: Seq<char>, sep: char) -> Seq<char> {
    if dir.len() == 0 || dir.last() == '/' || dir.last() == sep || (sep == '\\' && is_drive(dir)) {
        dir + name
    } else {
        dir + seq![sep] + name
    }
}

fn drive_only(dir: &str, n: usize) -> (r: bool)
    requires
        n == dir@.len(),
    ensures
        r == is_drive(dir@),
{
    if n != 2 || dir.get_char(1) != ':' {
        return false;
    }
    let c = dir.get_char(0) as u32;
    (65 <= c && c <= 90) || (97 <= c && c <= 122)
}

/// The path of `name` inside directory `dir`, with `sep` (`/` or `\`) as the
/// separator.
pub fn join_path(dir: &str, name: &str, sep: &str) -> (r: String)
    requires
        sep@ == "/"@ || sep@ == "\\"@,
    ensures
        r@ == joined(dir@, name@, sep@[0]),
{
    proof {
        reveal_strlit("/");
        reveal_strlit("\\");
    }
    let c = sep.get_char(0);
    assert(sep@ == seq![c]);
    let n = dir.unicode_len();
    if n == 0 || dir.get_char(n - 1) == '/' || dir.get_char(n - 1) == c || (c == '\\' && drive_only(dir, n)) {
        String::from_str(dir).concat(name)
    } else {
        String::from_str(dir).concat(sep).concat(name)
    }
}

/// The history database of the project in `project_dir`, joined as the
/// platform joins paths.
pub fn history_db_path(project_dir: &str) -> (r: String)
    ensures
        exists|sep: char| (sep == '/' || sep == '\\') && r@ == joined(project_dir@, "history.db"@, sep),
{
    let sep = main_separator();
    proof {
        reveal_strlit("/");
        reveal_strlit("\\");
    }
    let r = join_path(project_dir, "history.db", sep);
    assert(sep@[0] == '/' || sep@[0] == '\\');
    r
}

/// Numbered SQL parameter `?i`.
pub open spec fn sql_param(i: nat) -> Seq<char> {
    "?"@ + decimal(i)
}

/// `?1,?2,...,?n`.
pub open spec fn sql_params(n: nat) -> Seq<char>
    decreases n,
{
    if n == 0 {
        Seq::empty()
    } else if n == 1 {
        sql_param(1)
    } else {
        sql_params((n - 1) as nat) + ","@ + sql_param(n)
    }
}

/// The trend query over `n` tags: their samples between two times (the
/// parameters after the tags), oldest first.
pub open spec fn trend_sql_spec(n: nat) -> Seq<char> {
    "SELECT tag_id, ts, value, quality FROM samples WHERE tag_id IN ("@ + sql_params(n) + ") AND ts >= "@
        + sql_param(n + 1) + " AND ts <= "@ + sql_param(n + 2) + " ORDER BY ts ASC"@
}

fn param_text(i: u64) -> (r: String)
    ensures
        r@ == sql_param(i as nat),
{
    String::from_str("?").concat(decimal_string(i).as_str())
}

/// The trend query over `n` tags.
pub fn trend_sql(n: u64) -> (r: String)
    requires
        n + 2 <= u64::MAX,
    ensures
        r@ == trend_sql_spec(n as nat),
{
    let mut params = String::new();
    let mut i: u64 = 0;
    while i < n
        invariant
            0 <= i <= n,
            n + 2 <= u64::MAX,
            params@ == sql_params(i as nat),
        decreases n - i,
    {
        i += 1;
        if i == 1 {
            params = param_text(1);
        } else {
            params.append(",");
            params.append(param_text(i).as_str());
        }
    }
    String::from_str("SELECT tag_id, ts, value, quality FROM samples WHERE tag_id IN (")
        .concat(params.as_str())
        .concat(") AND ts >= ")
        .concat(param_text(n + 1).as_str())
        .concat(" AND ts <= ")
        .concat(param_text(n + 2).as_str())
        .concat(" ORDER BY ts ASC")
}

/// Distance between kept trend points when `len` points are thinned to at
/// most `max`: `len / max` rounded up.
pub open spec fn thinning_step(len: int, max: int) -> int {
    (len - 1) / max + 1
}

/// The trend points kept of `s` for at most `max` points (0: no limit): when
/// there are more, every `thinning_step`-th one from the first.
pub open spec fn downsampled(s: Seq<Sample>, max: u32) -> Seq<Sample> {
    if max > 0 && s.len() > max {
        let step: int = thinning_step(s.len() as int, max as int);
        Seq::new(((s.len() + step - 1) / step) as nat, |i: int| s[i * step])
    } else {
        s
    }
}

proof fn lemma_count(len: int, step: int, k: int)
    by (nonlinear_arith)
    requires
        step > 0,
        k > 0,
        (k - 1) * step < len,
        len <= k * step,
    ensures
        k == (len + step - 1) / step,
{
}

/// Thins trend points to at most `max` (0: no limit).
pub fn downsample(rows: Vec<Sample>, max: u32) -> (r: Vec<Sample>)
    ensures
        r@ == downsampled(rows@, max),
{
    let len = rows.len();
    if max == 0 || len <= max as usize {
        return rows;
    }
    let step = (len - 1) / max as usize + 1;
    proof { lemma_step_covers(len as int, max as int); }
    assert(step == thinning_step(len as int, max as int));
    assert(step <= len);
    let mut out: Vec<Sample> = Vec::new();
    let mut i: usize = 0;
    assert(0 * step == 0) by (nonlinear_arith);
    assert(out@ =~= Seq::new(0, |j: int| rows@[j * step]));
    loop
        invariant
            len == rows@.len(),
            1 <= step <= len,
            step == thinning_step(len as int, max as int),
            max > 0,
            len > max,
            i < len,
            i == out@.len() * step,
            out@ == Seq::new(out@.len(), |j: int| rows@[j * step]),
        decreases len - i,
    {
        let ghost k = out@.len() as int;
        out.push(rows[i].clone());
        assert(out@ =~= Seq::new(out@.len(), |j: int| rows@[j * step]));
        assert((k + 1) * step == k * step + step) by (nonlinear_arith);
        if i >= len - step {
            proof { lemma_count(len as int, step as int, k + 1); }
            return out;
        }
        i += step;
    }
}

proof fn lemma_step_covers(len: int, max: int)
    by (nonlinear_arith)
    requires
        len > max > 0,
    ensures
        thinning_step(len, max) >= 1,
        len <= max * thinning_step(len, max),
        (len + thinning_step(len, max) - 1) / thinning_step(len, max) >= 1,
        (len + thinning_step(len, max) - 1) / thinning_step(len, max) <= len,
{
    let q = (len - 1) / max;
    assert(len - 1 < max * (q + 1));
}

proof fn lemma_ceil_at_most(len: int, step: int, max: int)
    by (nonlinear_arith)
    requires
        step >= 1,
        max >= 1,
        len <= max * step,
    ensures
        (len + step - 1) / step <= max,
{
    assert(len + step - 1 < (max + 1) * step);
}

/// Thinning never keeps more than `max` points (0: no limit).
pub proof fn lemma_downsample_within_max(s: Seq<Sample>, max: u32)
    requires
        max > 0,
    ensures
        downsampled(s, max).len() <= max,
{
    if s.len() > max {
        let len: int = s.len() as int;
        lemma_step_covers(len, max as int);
        lemma_ceil_at_most(len, thinning_step(len, max as int), max as int);
    }
}

/// When there are more than `max` points, thinning keeps every `g`-th point
/// from the first, for the least gap `g` that leaves at most `max` points: a
/// gap one smaller would keep more than `max`.
pub proof fn lemma_downsample_least_gap(s: Seq<Sample>, max: u32)
    requires
        max > 0,
        s.len() > max,
    ensures
        exists|g: int|
            #![trigger (s.len() + g - 1) / g]
            {
                &&& g >= 1
                &&& downsampled(s, max).len() == (s.len() + g - 1) / g
                &&& downsampled(s, max).len() <= max
                &&& forall|k: int| 0 <= k < downsampled(s, max).len() ==> #[trigger] downsampled(s, max)[k] == s[k * g]
                &&& g > 1 ==> (s.len() + g - 2) / (g - 1) > max
            },
{
    let len: int = s.len() as int;
    let g = thinning_step(len, max as int);
    lemma_step_covers(len, max as int);
    lemma_ceil_at_most(len, g, max as int);
    if g > 1 {
        lemma_more_than_max(len, g - 1, max as int);
    }
    assert(downsampled(s, max).len() == (s.len() + g - 1) / g);
}

proof fn lemma_more_than_max(len: int, q: int, max: int)
    by (nonlinear_arith)
    requires
        max >= 1,
        q >= 1,
        q == (len - 1) / max,
        len > max,
    ensures
        (len + q - 1) / q > max,
{
    assert(q * max <= len - 1);
    assert((len + q - 1) / q >= len / q);
}

/// Thinning keeps the first point, and any points only from the input.
pub proof fn lemma_downsample_keeps_first(s: Seq<Sample>, max: u32)
    requires
        s.len() > 0,
    ensures
        downsampled(s, max).len() > 0,
        downsampled(s, max)[0] == s[0],
        downsampled(s, max).len() <= s.len(),
{
    if max > 0 && s.len() > max {
        let len: int = s.len() as int;
        let step: int = thinning_step(len, max as int);
        lemma_step_covers(len, max as int);
        assert(downsampled(s, max)[0] == s[0 * step]);
    }
}

} // verus!
