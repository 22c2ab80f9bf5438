//! Interpretation of the command-line surface.
//!
//! The CLI collaborator matches the raw argument vector against the
//! known flags and hands over one `RawOptions` record of plain
//! values. This module turns it into a runnable `CmdLine`
//! configuration, or into a `ConfigError` when the user asked for
//! help, gave a flag a value outside its accepted set (both are
//! treated as a request for the usage text), or named an unknown
//! platform.

use vstd::prelude::*;

use crate::device::name_lookup;
use crate::device::pci_id_for_name;
use crate::device::PlatformName;
use crate::errors::ConfigError;

verus! {

/// The command line as matched by the CLI collaborator, before any
/// value is interpreted.
#[derive(Debug, Clone)]
pub struct RawOptions {
    /// `-h` / `--help` was present.
    pub help: bool,
    /// The value of `--gen`, a platform short name.
    pub gen_name: Option<String>,
    /// `--headers` was present.
    pub headers: bool,
    /// The value of `--color`: `auto`, `always` or `never`.
    pub color: Option<String>,
    /// The value of `--max-vbo-lines`, a decimal line count.
    pub max_vbo_lines: Option<String>,
    /// `--no-pager` was present.
    pub no_pager: bool,
    /// `--no-offsets` was present.
    pub no_offsets: bool,
    /// The value of `--xml`, a hardware-description directory.
    pub xml_dir: Option<String>,
}

/// A runnable configuration: every flag value interpreted.
#[derive(Debug, Clone, PartialEq, Eq)]
pub struct CmdLine {
    /// PCI id selected through `--gen`, when the flag was given.
    pub gen: Option<i32>,
    /// Decode only command headers.
    pub headers: bool,
    /// `None` for auto, `Some(true)` for always, `Some(false)` for never.
    pub color: Option<bool>,
    /// Cap on decoded buffer lines; `None` means unlimited.
    pub max_vbo_lines: Option<u64>,
    /// Do not launch a pager for the output sink.
    pub disable_pager: bool,
    /// Do not print instruction offsets.
    pub no_offsets: bool,
    /// Directory to load hardware descriptions from.
    pub xml_dir: Option<String>,
}

/// Whether `c` is a decimal digit.
pub open spec fn is_digit(c: char) -> bool {
    48 <= c as u32 <= 57
}

pub open spec fn digit_val(c: char) -> int {
    c as u32 - 48
}

pub open spec fn all_digits(s: Seq<char>) -> bool {
    forall|i: int| 0 <= i < s.len() ==> is_digit(#[trigger] s[i])
}

/// The number a digit string denotes.
pub open spec fn dec_val(s: Seq<char>) -> int
    decreases s.len(),
{
    if s.len() == 0 {
        0
    } else {
        dec_val(s.drop_last()) * 10 + digit_val(s.last())
    }
}

proof fn lemma_dec_val_nonneg(s: Seq<char>)
    requires
        all_digits(s),
    ensures
        dec_val(s) >= 0,
    decreases s.len(),
{
    if s.len() > 0 {
        assert(forall|i: int| 0 <= i < s.drop_last().len() ==> #[trigger] s.drop_last()[i] == s[i]);
        lemma_dec_val_nonneg(s.drop_last());
        assert(is_digit(s[s.len() - 1]));
    }
}

/// A longer digit string never denotes a smaller number.
proof fn lemma_dec_val_prefix_le(s: Seq<char>, k: int)
    requires
        all_digits(s),
        0 <= k <= s.len(),
    ensures
        dec_val(s.take(k)) <= dec_val(s),
    decreases s.len() - k,
{
    if k < s.len() {
        let t = s.take(k + 1);
        assert(forall|i: int| 0 <= i < t.len() ==> #[trigger] t[i] == s[i]);
        assert(t.drop_last() =~= s.take(k));
        assert(dec_val(t) == dec_val(s.take(k)) * 10 + digit_val(t.last()));
        assert(all_digits(s.take(k))) by {
            assert(forall|i: int|
                0 <= i < s.take(k).len() ==> #[trigger] s.take(k)[i] == s[i]);
        }
        lemma_dec_val_nonneg(s.take(k));
        assert(is_digit(s[k]));
        assert(dec_val(s.take(k)) <= dec_val(t));
        lemma_dec_val_prefix_le(s, k + 1);
    } else {
        assert(s.take(k) =~= s);
    }
}

/// Parse a decimal line count: `Some` exactly on nonempty all-digit
/// strings whose value fits in 64 bits, and then the denoted value.
pub fn parse_u64(s: &String) -> (r: Option<u64>)
    ensures
        r == if all_digits(s@) && s@.len() > 0 && dec_val(s@) <= u64::MAX {
            Some(dec_val(s@) as u64)
        } else {
            None::<u64>
        },
{
    let st = s.as_str();
    let n: usize = st.unicode_len();
    if n == 0 {
        return None;
    }
    let mut acc: u64 = 0;
    let mut i: usize = 0;
    while i < n
        invariant
            0 < n == s@.len(),
            i <= n,
            all_digits(s@.take(i as int)),
            acc == dec_val(s@.take(i as int)),
            st@ == s@,
        decreases n - i,
    {
        let c = st.get_char(i);
        let u: u32 = c as u32;
        if u < 48 || u > 57 {
            proof {
                assert(!is_digit(s@[i as int]));
            }
            return None;
        }
        let d: u64 = (u - 48) as u64;
        let ghost t = s@.take(i as int + 1);
        proof {
            assert(forall|j: int| 0 <= j < t.len() ==> #[trigger] t[j] == s@[j]);
            assert(t.drop_last() =~= s@.take(i as int));
            assert(t.last() == s@[i as int]);
            assert(dec_val(t) == acc * 10 + d);
        }
        if acc > (u64::MAX - d) / 10 {
            proof {
                vstd::arithmetic::div_mod::lemma_fundamental_div_mod(u64::MAX - d, 10);
                assert(acc * 10 + d > u64::MAX);
                if all_digits(s@) {
                    lemma_dec_val_prefix_le(s@, i as int + 1);
                    assert(dec_val(s@) >= dec_val(t));
                    assert(dec_val(s@) > u64::MAX);
                }
            }
            return None;
        }
        proof {
            vstd::arithmetic::div_mod::lemma_fundamental_div_mod(u64::MAX - d, 10);
            assert(acc * 10 + d <= u64::MAX);
        }
        acc = acc * 10 + d;
        i = i + 1;
        proof {
            assert(s@.take(i as int) == t);
        }
    }
    proof {
        assert(s@.take(i as int) =~= s@);
        lemma_dec_val_nonneg(s@);
    }
    Some(acc)
}

/// How a `--color` value is interpreted: the outer `None` marks a
/// value outside the accepted set, which is a request for usage text.
pub open spec fn color_of(c: Option<String>) -> Option<Option<bool>> {
    match c {
        None => Some(None),
        Some(s) => if s@ == "auto"@ {
            Some(None)
        } else if s@ == "always"@ {
            Some(Some(true))
        } else if s@ == "never"@ {
            Some(Some(false))
        } else {
            None
        },
    }
}

/// How a `--max-vbo-lines` value is interpreted: the outer `None`
/// marks a non-numeric or overflowing value.
pub open spec fn max_lines_of(m: Option<String>) -> Option<Option<u64>> {
    match m {
        None => Some(None),
        Some(s) => if all_digits(s@) && s@.len() > 0 && dec_val(s@) <= u64::MAX {
            Some(Some(dec_val(s@) as u64))
        } else {
            None
        },
    }
}

/// The meaning of one raw command line, given the platform-name table.
pub open spec fn interpret_spec(raw: RawOptions, names: Seq<PlatformName>) -> Result<
    CmdLine,
    ConfigError,
> {
    match (color_of(raw.color), max_lines_of(raw.max_vbo_lines)) {
        (Some(colorv), Some(maxv)) => {
            if raw.help {
                Err(ConfigError::Usage)
            } else {
                match raw.gen_name {
                    Some(name) => match name_lookup(names, name@) {
                        Some(id) => Ok(
                            CmdLine {
                                gen: Some(id),
                                headers: raw.headers,
                                color: colorv,
                                max_vbo_lines: maxv,
                                disable_pager: raw.no_pager,
                                no_offsets: raw.no_offsets,
                                xml_dir: raw.xml_dir,
                            },
                        ),
                        None => Err(ConfigError::UnknownPlatform { name }),
                    },
                    None => Ok(
                        CmdLine {
                            gen: None,
                            headers: raw.headers,
                            color: colorv,
                            max_vbo_lines: maxv,
                            disable_pager: raw.no_pager,
                            no_offsets: raw.no_offsets,
                            xml_dir: raw.xml_dir,
                        },
                    ),
                }
            }
        },
        _ => Err(ConfigError::Usage),
    }
}

/// Turn the matched command line into a runnable configuration.
/// Help requests and out-of-set flag values yield `Usage`; an unknown
/// `--gen` platform name yields `UnknownPlatform`; otherwise every
/// field of the result is pinned by `interpret_spec`.
pub fn interpret_options(raw: RawOptions, names: &Vec<PlatformName>) -> (r: Result<
    CmdLine,
    ConfigError,
>)
    ensures
        r == interpret_spec(raw, names@),
{
    let RawOptions { help, gen_name, headers, color, max_vbo_lines, no_pager, no_offsets, xml_dir } =
        raw;
    let color_val: Option<Option<bool>> = match &color {
        None => Some(None),
        Some(c) => {
            if *c == "auto".to_owned() {
                Some(None)
            } else if *c == "always".to_owned() {
                Some(Some(true))
            } else if *c == "never".to_owned() {
                Some(Some(false))
            } else {
                None
            }
        },
    };
    let max_val: Option<Option<u64>> = match &max_vbo_lines {
        None => Some(None),
        Some(m) => match parse_u64(m) {
            Some(v) => Some(Some(v)),
            None => None,
        },
    };
    if help {
        return Err(ConfigError::Usage);
    }
    let color_field = match color_val {
        Some(v) => v,
        None => {
            return Err(ConfigError::Usage);
        },
    };
    let max_field = match max_val {
        Some(v) => v,
        None => {
            return Err(ConfigError::Usage);
        },
    };
    match gen_name {
        Some(name) => match pci_id_for_name(names, &name) {
            Some(id) => Ok(
                CmdLine {
                    gen: Some(id),
                    headers,
                    color: color_field,
                    max_vbo_lines: max_field,
                    disable_pager: no_pager,
                    no_offsets,
                    xml_dir,
                },
            ),
            None => Err(ConfigError::UnknownPlatform { name }),
        },
        None => Ok(
            CmdLine {
                gen: None,
                headers,
                color: color_field,
                max_vbo_lines: max_field,
                disable_pager: no_pager,
                no_offsets,
                xml_dir,
            },
        ),
    }
}

} // verus!
