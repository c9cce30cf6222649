//! Memory usage of the running process, and its human-readable rendering.

use vstd::prelude::*;
use vstd::string::StringExecFns;
use crate::numfmt::{
    lemma_div_round_half_even_close, lemma_div_round_half_even_monotone,
    lemma_f64_of_integer_monotone, lemma_f64_of_small_integer, F64_EXACT_LIMIT,
    decimal_chars, digit_char, digit_str, div_round_half_even, div_round_half_even_u128,
    f64_of_integer, f64_value_of_u64, push_decimal,
};

verus! {

/// One kibibyte.
pub const KB: u64 = 1024;

/// One mebibyte.
pub const MB: u64 = 1048576;

/// One gibibyte.
pub const GB: u64 = 1073741824;

/// `bytes / unit`, as an `f64` computation would hold it, in tenths rounded
/// half to even: the figure that a one-decimal rendering shows.
pub open spec fn shown_tenths(bytes: nat, unit: nat) -> nat {
    div_round_half_even(f64_of_integer(bytes) * 10, unit)
}

/// `bytes / unit` with exactly one decimal, such as `"1.5"`.
pub open spec fn one_decimal_chars(bytes: nat, unit: nat) -> Seq<char> {
    let t = shown_tenths(bytes, unit);
    decimal_chars(t / 10) + seq!['.', digit_char(t % 10)]
}

/// The human-readable size: in the largest of GB, MB, KB that `bytes` reaches,
/// with one decimal, or in whole bytes below one KB.
pub open spec fn format_bytes_chars(bytes: nat) -> Seq<char> {
    if bytes >= GB as nat {
        one_decimal_chars(bytes, GB as nat) + seq![' ', 'G', 'B']
    } else if bytes >= MB as nat {
        one_decimal_chars(bytes, MB as nat) + seq![' ', 'M', 'B']
    } else if bytes >= KB as nat {
        one_decimal_chars(bytes, KB as nat) + seq![' ', 'K', 'B']
    } else {
        decimal_chars(bytes) + seq![' ', 'B']
    }
}

/// The label that states how much memory is used out of the total.
pub open spec fn used_label_chars(used: nat, total: nat) -> Seq<char> {
    seq!['U', 's', 'e', 'd', ':', ' '] + format_bytes_chars(used) + seq![' ', '/', ' ']
        + format_bytes_chars(total)
}

/// The figure that `format_bytes` shows is the size in the chosen unit to
/// within half a tenth: `|tenths * unit - 10 * bytes| <= unit / 2`, for every
/// size that an `f64` holds exactly (below 2^53 bytes). Above that, the same
/// bound holds of the `f64` nearest to the size.
pub proof fn lemma_shown_figure_within_half_tenth(bytes: nat, unit: nat)
    requires
        unit > 0,
    ensures
        2 * (shown_tenths(bytes, unit) * unit - 10 * f64_of_integer(bytes)) <= unit,
        2 * (10 * f64_of_integer(bytes) - shown_tenths(bytes, unit) * unit) <= unit,
        bytes < F64_EXACT_LIMIT as nat ==> 2 * (shown_tenths(bytes, unit) * unit - 10 * bytes)
            <= unit,
        bytes < F64_EXACT_LIMIT as nat ==> 2 * (10 * bytes - shown_tenths(bytes, unit) * unit)
            <= unit,
{
    lemma_div_round_half_even_close(f64_of_integer(bytes) * 10, unit);
    if bytes < F64_EXACT_LIMIT as nat {
        lemma_f64_of_small_integer(bytes);
    }
}

/// Within one unit the figure that `format_bytes` shows never decreases as the
/// size grows: `a <= b` implies that the tenths shown for `a` are at most those
/// shown for `b`.
pub proof fn lemma_shown_figure_monotone(a: nat, b: nat, unit: nat)
    requires
        a <= b,
        unit > 0,
    ensures
        shown_tenths(a, unit) <= shown_tenths(b, unit),
{
    lemma_f64_of_integer_monotone(a, b);
    lemma_div_round_half_even_monotone(f64_of_integer(a) * 10, f64_of_integer(b) * 10, unit);
}

/// The memory label reads "Used: ", the rendering of the used figure, " / ",
/// and then the rendering of the total figure alone: the part after the used
/// figure does not depend on the used figure, and the part before " / " does
/// not depend on the total.
pub proof fn lemma_used_label_parts(used: nat, total: nat)
    ensures
        ({
            let l = used_label_chars(used, total);
            let nu = format_bytes_chars(used).len() as int;
            let nt = format_bytes_chars(total).len() as int;
            &&& l.len() == 9 + nu + nt
            &&& l.subrange(0, 6) == seq!['U', 's', 'e', 'd', ':', ' ']
            &&& l.subrange(6, 6 + nu) == format_bytes_chars(used)
            &&& l.subrange(6 + nu, 9 + nu) == seq![' ', '/', ' ']
            &&& l.subrange(9 + nu, l.len() as int) == format_bytes_chars(total)
        }),
{
    let l = used_label_chars(used, total);
    let nu = format_bytes_chars(used).len() as int;
    assert(l.subrange(0, 6) =~= seq!['U', 's', 'e', 'd', ':', ' ']);
    assert(l.subrange(6, 6 + nu) =~= format_bytes_chars(used));
    assert(l.subrange(6 + nu, 9 + nu) =~= seq![' ', '/', ' ']);
    assert(l.subrange(9 + nu, l.len() as int) =~= format_bytes_chars(total));
}

/// Changing the used figure leaves the total's part of the label as it was,
/// and changing the total leaves the used figure's part as it was.
pub proof fn lemma_used_label_figures_independent(u1: nat, u2: nat, t1: nat, t2: nat)
    ensures
        ({
            let a = used_label_chars(u1, t1);
            let b = used_label_chars(u2, t1);
            a.subrange(a.len() - format_bytes_chars(t1).len(), a.len() as int) == b.subrange(
                b.len() - format_bytes_chars(t1).len(),
                b.len() as int,
            )
        }),
        ({
            let a = used_label_chars(u1, t1);
            let b = used_label_chars(u1, t2);
            a.subrange(0, 6 + format_bytes_chars(u1).len() as int) == b.subrange(
                0,
                6 + format_bytes_chars(u1).len() as int,
            )
        }),
{
    lemma_used_label_parts(u1, t1);
    lemma_used_label_parts(u2, t1);
    lemma_used_label_parts(u1, t2);
    let a = used_label_chars(u1, t1);
    let b = used_label_chars(u1, t2);
    let n = format_bytes_chars(u1).len() as int;
    assert(a.subrange(0, 6 + n) =~= a.subrange(0, 6) + a.subrange(6, 6 + n));
    assert(b.subrange(0, 6 + n) =~= b.subrange(0, 6) + b.subrange(6, 6 + n));
}

/// Appends `bytes / unit` with one decimal to `out`.
fn push_one_decimal(out: &mut String, bytes: u64, unit: u64)
    requires
        unit > 0,
    ensures
        final(out)@ == old(out)@ + one_decimal_chars(bytes as nat, unit as nat),
{
    let v = f64_value_of_u64(bytes);
    let t = div_round_half_even_u128(v * 10, unit as u128);
    push_decimal(out, t / 10);
    proof {
        reveal_strlit(".");
    }
    out.append(".");
    out.append(digit_str((t % 10) as u8));
    assert(final(out)@ =~= old(out)@ + one_decimal_chars(bytes as nat, unit as nat));
}

/// Memory figures: total memory of the machine and memory used by this process.
#[derive(Debug, Clone)]
pub struct RamUsage {
    pub total_kb: u64,
    pub available_kb: u64,
    pub used_kb: u64,
}

impl RamUsage {
    /// The figures that a reading yields: the machine's total memory, and the
    /// memory of the current process, or 0 where that process was not found.
    /// The available memory is not read and stays 0.
    pub fn from_readings(total_memory: u64, process_memory: Option<u64>) -> (r: RamUsage)
        ensures
            r.total_kb == total_memory,
            r.available_kb == 0,
            r.used_kb == match process_memory {
                Some(m) => m,
                None => 0,
            },
    {
        let used_kb = match process_memory {
            Some(m) => m,
            None => 0,
        };
        RamUsage { total_kb: total_memory, available_kb: 0, used_kb }
    }

    /// Format bytes to a human-readable string (e.g., "1.5 GB").
    pub fn format_bytes(bytes: u64) -> (s: String)
        ensures
            s@ == format_bytes_chars(bytes as nat),
    {
        let mut s = String::new();
        proof {
            reveal_strlit(" GB");
            reveal_strlit(" MB");
            reveal_strlit(" KB");
            reveal_strlit(" B");
        }
        if bytes >= GB {
            push_one_decimal(&mut s, bytes, GB);
            s.append(" GB");
        } else if bytes >= MB {
            push_one_decimal(&mut s, bytes, MB);
            s.append(" MB");
        } else if bytes >= KB {
            push_one_decimal(&mut s, bytes, KB);
            s.append(" KB");
        } else {
            push_decimal(&mut s, bytes as u128);
            s.append(" B");
        }
        s
    }

    /// The label "Used: <used> / <total>", each figure rendered by `format_bytes`.
    pub fn used_label(&self) -> (s: String)
        ensures
            s@ == used_label_chars(self.used_kb as nat, self.total_kb as nat),
            s@.subrange(s@.len() - format_bytes_chars(self.total_kb as nat).len(), s@.len() as int)
                == format_bytes_chars(self.total_kb as nat),
            s@.subrange(6, 6 + format_bytes_chars(self.used_kb as nat).len() as int) == format_bytes_chars(
                self.used_kb as nat,
            ),
    {
        proof {
            lemma_used_label_parts(self.used_kb as nat, self.total_kb as nat);
        }
        let mut s = String::new();
        proof {
            reveal_strlit("Used: ");
            reveal_strlit(" / ");
        }
        s.append("Used: ");
        let used = RamUsage::format_bytes(self.used_kb);
        s.append(used.as_str());
        s.append(" / ");
        let total = RamUsage::format_bytes(self.total_kb);
        s.append(total.as_str());
        s
    }
}

} // verus!
