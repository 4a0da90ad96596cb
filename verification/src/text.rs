//! Text helpers around the stored data: decimal rendering of ids, parsing
//! of the comma-joined id lists read from storage, and building the
//! filesystem destination of an uploaded file.

use vstd::prelude::*;

verus! {

use vstd::string::StringExecFns;

/// The decimal digit character of `d`.
pub open spec fn digit_char(d: int) -> char
    recommends
        0 <= d <= 9,
{
    if d == 0 {
        '0'
    } else if d == 1 {
        '1'
    } else if d == 2 {
        '2'
    } else if d == 3 {
        '3'
    } else if d == 4 {
        '4'
    } else if d == 5 {
        '5'
    } else if d == 6 {
        '6'
    } else if d == 7 {
        '7'
    } else if d == 8 {
        '8'
    } else {
        '9'
    }
}

/// The decimal rendering of `n` as characters, most significant digit
/// first, without leading zeros.
pub open spec fn dec_chars(n: int) -> Seq<char>
    recommends
        n >= 0,
    decreases n,
{
    if n < 10 {
        seq![digit_char(n)]
    } else {
        dec_chars(n / 10).push(digit_char(n % 10))
    }
}

/// The decimal rendering of `n` as ASCII bytes, most significant digit
/// first, without leading zeros.
pub open spec fn dec_bytes(n: int) -> Seq<u8>
    recommends
        n >= 0,
    decreases n,
{
    if n < 10 {
        seq![(48 + n) as u8]
    } else {
        dec_bytes(n / 10).push((48 + n % 10) as u8)
    }
}

/// The canonical comma-joined rendering of a list of ids, as storage
/// produces it: decimal values separated by single commas, no leading
/// zeros, no trailing comma, empty for the empty list.
pub open spec fn render_id_list(v: Seq<i64>) -> Seq<u8>
    decreases v.len(),
{
    if v.len() == 0 {
        Seq::empty()
    } else if v.len() == 1 {
        dec_bytes(v[0] as int)
    } else {
        render_id_list(v.drop_last()) + seq![44u8] + dec_bytes(v.last() as int)
    }
}

/// One decimal digit as a string.
fn digit_str(d: u64) -> (s: &'static str)
    requires
        d < 10,
    ensures
        s@ == seq![digit_char(d as int)],
{
    let s = if d == 0 {
        "0"
    } else if d == 1 {
        "1"
    } else if d == 2 {
        "2"
    } else if d == 3 {
        "3"
    } else if d == 4 {
        "4"
    } else if d == 5 {
        "5"
    } else if d == 6 {
        "6"
    } else if d == 7 {
        "7"
    } else if d == 8 {
        "8"
    } else {
        "9"
    };
    proof {
        reveal_strlit("0");
        reveal_strlit("1");
        reveal_strlit("2");
        reveal_strlit("3");
        reveal_strlit("4");
        reveal_strlit("5");
        reveal_strlit("6");
        reveal_strlit("7");
        reveal_strlit("8");
        reveal_strlit("9");
        assert(s@ =~= seq![digit_char(d as int)]);
    }
    s
}

/// The decimal rendering of `n`, without leading zeros.
pub fn u64_dec(n: u64) -> (s: String)
    ensures
        s@ == dec_chars(n as int),
    decreases n,
{
    if n < 10 {
        digit_str(n).to_owned()
    } else {
        let mut s = u64_dec(n / 10);
        s.append(digit_str(n % 10));
        proof {
            assert(s@ =~= dec_chars(n as int));
        }
        s
    }
}

/// What `sanitize_with_options` turns an upload name into, with replacement
/// by the empty string, truncation, and the portable (non-Windows) rule
/// set: a function of the name alone.
pub uninterp spec fn sanitized_of(name: Seq<char>) -> Seq<char>;

/// Relies on sanitize_filename::sanitize_with_options: path separators,
/// control characters and reserved names are removed and the result is
/// truncated to a filesystem-safe length; with these fixed options the
/// result depends on the name alone, and an empty name stays empty.
#[verifier::external_body]
fn sanitize_name(name: &str) -> (r: String)
    ensures
        r@ == sanitized_of(name@),
        name@.len() == 0 ==> r@.len() == 0,
{
    let options = sanitize_filename::Options { windows: false, truncate: true, replacement: "" };
    sanitize_filename::sanitize_with_options(name, options)
}

/// The directory all project uploads live under.
pub open spec fn project_data_dir() -> Seq<char> {
    seq!['.', '/', 'p', 'r', 'o', 'j', 'e', 'c', 't', '_', 'd', 'a', 't', 'a', '/']
}

/// Where an upload of `upload_name` into project `project_id` is stored:
/// the project's data directory plus the sanitized upload name.
pub fn file_destination(project_id: i64, upload_name: &str) -> (r: String)
    requires
        project_id >= 0,
    ensures
        r@ == project_data_dir() + dec_chars(project_id as int) + seq!['/'] + sanitized_of(
            upload_name@,
        ),
{
    let mut s = "./project_data/".to_owned();
    proof {
        reveal_strlit("./project_data/");
        assert(s@ =~= project_data_dir());
    }
    let digits = u64_dec(project_id as u64);
    s.append(digits.as_str());
    s.append("/");
    proof {
        reveal_strlit("/");
    }
    let sanitized = sanitize_name(upload_name);
    s.append(sanitized.as_str());
    proof {
        assert(s@ =~= project_data_dir() + dec_chars(project_id as int) + seq!['/']
            + sanitized_of(upload_name@));
    }
    s
}

/// Parses a comma-joined id list as storage renders it. On success the
/// input is exactly the canonical rendering of the result: non-negative
/// decimal values without leading zeros, single commas between them. An
/// empty input is the empty list (a project with no files).
pub fn parse_id_list(bytes: &[u8]) -> (r: Option<Vec<i64>>)
    ensures
        r matches Some(v) ==> bytes@ == render_id_list(v@) && (forall|i: int|
            0 <= i < v@.len() ==> (#[trigger] v@[i]) >= 0),
        bytes@.len() == 0 ==> r is Some,
{
    let n = bytes.len();
    if n == 0 {
        let empty: Vec<i64> = Vec::new();
        proof {
            assert(bytes@ =~= render_id_list(empty@));
        }
        return Some(empty);
    }
    let mut out: Vec<i64> = Vec::new();
    let mut pos: usize = 0;
    while pos < n
        invariant
            n == bytes@.len(),
            pos <= n,
            forall|i: int| 0 <= i < out@.len() ==> (#[trigger] out@[i]) >= 0,
            out@.len() == 0 ==> pos == 0,
            out@.len() > 0 ==> (pos == n && bytes@.subrange(0, pos as int) == render_id_list(
                out@,
            )) || (pos < n && bytes@.subrange(0, pos as int) == render_id_list(out@)
                + seq![44u8]),
        decreases n - pos,
    {
        let ghost out0 = out@;
        let ghost gstart = pos;
        let b0 = bytes[pos];
        if !(48 <= b0 && b0 <= 57) {
            return None;
        }
        let mut acc: i64 = (b0 - 48) as i64;
        pos = pos + 1;
        proof {
            assert(bytes@.subrange(gstart as int, pos as int) =~= seq![b0]);
            assert(dec_bytes(acc as int) =~= seq![b0]);
        }
        if b0 != 48 {
            while pos < n && 48 <= bytes[pos] && bytes[pos] <= 57
                invariant
                    n == bytes@.len(),
                    gstart < pos <= n,
                    1 <= acc,
                    dec_bytes(acc as int) == bytes@.subrange(gstart as int, pos as int),
                decreases n - pos,
            {
                let d = bytes[pos] - 48;
                if acc > (i64::MAX - d as i64) / 10 {
                    return None;
                }
                proof {
                    let m = i64::MAX as int;
                    let di = d as int;
                    assert(10 * ((m - di) / 10) <= m - di);
                    assert(acc * 10 <= 10 * ((m - di) / 10)) by (nonlinear_arith)
                        requires
                            acc <= (m - di) / 10,
                    ;
                }
                let next = acc * 10 + d as i64;
                proof {
                    let a = acc as int;
                    let di = d as int;
                    assert(next as int == a * 10 + di);
                    assert((a * 10 + di) / 10 == a && (a * 10 + di) % 10 == di) by {
                        vstd::arithmetic::div_mod::lemma_fundamental_div_mod_converse(
                            a * 10 + di,
                            10,
                            a,
                            di,
                        );
                    }
                    assert(a * 10 + di >= 10) by (nonlinear_arith)
                        requires
                            a >= 1,
                            di >= 0,
                    ;
                    assert(dec_bytes(next as int) == dec_bytes(a).push((48 + di) as u8));
                    assert(bytes@.subrange(gstart as int, pos + 1) =~= bytes@.subrange(
                        gstart as int,
                        pos as int,
                    ).push(bytes@[pos as int]));
                }
                acc = next;
                pos = pos + 1;
            }
        }
        out.push(acc);
        proof {
            assert(out@ == out0.push(acc));
            assert(out@.drop_last() =~= out0);
            if out0.len() == 0 {
                assert(bytes@.subrange(0, pos as int) =~= dec_bytes(acc as int));
                assert(bytes@.subrange(0, pos as int) == render_id_list(out@));
            } else {
                assert(bytes@.subrange(0, pos as int) =~= bytes@.subrange(0, gstart as int)
                    + bytes@.subrange(gstart as int, pos as int));
                assert(bytes@.subrange(0, pos as int) == render_id_list(out@));
            }
        }
        if pos < n {
            if bytes[pos] != 44 {
                return None;
            }
            pos = pos + 1;
            if pos == n {
                return None;
            }
            proof {
                assert(bytes@.subrange(0, pos as int) =~= bytes@.subrange(0, pos - 1).push(
                    bytes@[pos - 1],
                ));
                assert(bytes@.subrange(0, pos as int) == render_id_list(out@) + seq![44u8]);
            }
        }
    }
    proof {
        assert(bytes@.subrange(0, n as int) =~= bytes@);
    }
    Some(out)
}

} // verus!
