use vstd::prelude::*;
use crate::geometry::Box;
use crate::geometry::spec_parse_box;
use crate::scaling::Scale;
use crate::text::all_digits;
use crate::text::digits_val;
use crate::text::find_char;
use crate::text::lemma_digits_val_prefix_le;
use crate::text::parse_i32_str;
use crate::text::spec_find_char;
use crate::text::spec_parse_i32;

verus! {

/// The image encodings the command line can ask for.
#[derive(Debug, Clone, Copy, PartialEq, Eq, Structural)]
pub enum FileType {
    Png,
    Ppm,
    Jpeg,
}

/// Everything the command line determines: the help flag, an optional
/// post-scale factor, an optional capture region in logical coordinates,
/// the output encoding with its quality or compression level, and at most
/// one output path.
#[derive(Debug, Clone, PartialEq, Eq)]
pub struct CliConfig {
    pub help: bool,
    pub scale: Option<Scale>,
    pub geometry: Option<Box>,
    pub filetype: FileType,
    pub jpeg_quality: u8,
    pub png_level: u8,
    pub output_path: Option<String>,
}

/// The configuration before any flag is read: PNG output at compression
/// level six, JPEG quality eighty, no scale, no region, no path.
pub open spec fn spec_initial_config() -> CliConfig {
    CliConfig {
        help: false,
        scale: None,
        geometry: None,
        filetype: FileType::Png,
        jpeg_quality: 80,
        png_level: 6,
        output_path: None,
    }
}

impl CliConfig {
    /// The configuration before any flag is read.
    pub fn new() -> (r: Self)
        ensures
            r == spec_initial_config(),
    {
        CliConfig {
            help: false,
            scale: None,
            geometry: None,
            filetype: FileType::Png,
            jpeg_quality: 80,
            png_level: 6,
            output_path: None,
        }
    }
}

/// Ten to the given power.
pub open spec fn spec_pow10(k: int) -> int
    decreases k,
{
    if k <= 0 {
        1
    } else {
        10 * spec_pow10(k - 1)
    }
}

/// Ten to the given power, for the fractional digits of a scale factor.
fn pow10_u32(k: usize) -> (r: u32)
    requires
        k <= 9,
    ensures
        r == spec_pow10(k as int),
{
    proof {
        assert(spec_pow10(0) == 1);
        assert(spec_pow10(1) == 10);
        assert(spec_pow10(2) == 100);
        assert(spec_pow10(3) == 1000);
        assert(spec_pow10(4) == 10000);
        assert(spec_pow10(5) == 100000);
        assert(spec_pow10(6) == 1000000);
        assert(spec_pow10(7) == 10000000);
        assert(spec_pow10(8) == 100000000);
        assert(spec_pow10(9) == 1000000000);
    }
    match k {
        0 => 1,
        1 => 10,
        2 => 100,
        3 => 1000,
        4 => 10000,
        5 => 100000,
        6 => 1000000,
        7 => 10000000,
        8 => 100000000,
        _ => 1000000000,
    }
}

/// The number a plain digit text denotes, when it is non-empty, all digits,
/// and fits an unsigned 32-bit value.
fn parse_digits_u32(s: &str) -> (r: Option<u32>)
    ensures
        match r {
            Some(v) => s@.len() >= 1 && all_digits(s@) && v == digits_val(s@),
            None => s@.len() == 0 || !all_digits(s@) || digits_val(s@) > u32::MAX,
        },
{
    let len = s.unicode_len();
    if len == 0 {
        return None;
    }
    let mut acc: u64 = 0;
    let mut idx: usize = 0;
    while idx < len
        invariant
            len == s@.len(),
            idx <= len,
            acc <= 0xFFFF_FFFFu64,
            all_digits(s@.take(idx as int)),
            acc == digits_val(s@.take(idx as int)),
        decreases len - idx,
    {
        let c = s.get_char(idx);
        let cu = c as u32;
        if cu < 48 || cu > 57 {
            proof {
                assert(!crate::text::is_digit(s@[idx as int]));
            }
            return None;
        }
        let d: u64 = (cu - 48) as u64;
        acc = acc * 10 + d;
        proof {
            assert(s@.take(idx as int + 1).drop_last() =~= s@.take(idx as int));
            assert(s@.take(idx as int + 1).last() == s@[idx as int]);
        }
        if acc > 0xFFFF_FFFFu64 {
            proof {
                if all_digits(s@) {
                    lemma_digits_val_prefix_le(s@, idx as int + 1);
                }
            }
            return None;
        }
        idx += 1;
    }
    proof {
        assert(s@.take(len as int) =~= s@);
    }
    Some(acc as u32)
}

/// The exact scale factor a decimal text denotes: an optionally signed
/// integer of at least one, or digits around a decimal point read as a
/// ratio over a power of ten with at most nine fractional digits; any other
/// shape, zero, and factors out of range denote nothing.
pub open spec fn spec_parse_scale(s: Seq<char>) -> Option<Scale> {
    let dot = spec_find_char(s, '.');
    if dot == s.len() {
        match spec_parse_i32(s) {
            Some(v) => if v >= 1 {
                Some(Scale { num: v as u32, den: 1 })
            } else {
                None
            },
            None => None,
        }
    } else {
        let ip = s.take(dot);
        let fp = s.skip(dot + 1);
        if ip.len() + fp.len() == 0 || !all_digits(ip) || !all_digits(fp) || fp.len() > 9
            || spec_find_char(fp, '.') != fp.len() {
            None
        } else {
            let num = digits_val(ip + fp);
            let den = spec_pow10(fp.len() as int);
            if 1 <= num <= u32::MAX {
                Some(Scale { num: num as u32, den: den as u32 })
            } else {
                None
            }
        }
    }
}

/// The exact scale factor a decimal text denotes.
pub fn parse_scale(s: &str) -> (r: Option<Scale>)
    ensures
        r == spec_parse_scale(s@),
        r is Some ==> r.unwrap().wf(),
{
    let len = s.unicode_len();
    let dot = find_char(s, '.');
    proof {
        crate::text::lemma_find_char_props(s@, '.');
    }
    if dot == len {
        match parse_i32_str(s) {
            Some(v) => {
                if v >= 1 {
                    Some(Scale::new(v as u32, 1))
                } else {
                    None
                }
            },
            None => None,
        }
    } else {
        let ip = s.substring_char(0, dot);
        let fp = s.substring_char(dot + 1, len);
        proof {
            assert(ip@ =~= s@.take(dot as int));
            assert(fp@ =~= s@.skip(dot as int + 1));
        }
        let fp_len = fp.unicode_len();
        let ip_len = ip.unicode_len();
        if ip_len + fp_len == 0 || fp_len > 9 {
            return None;
        }
        if find_char(fp, '.') != fp_len {
            return None;
        }
        let combined = ip.to_owned().concat(fp);
        match parse_digits_u32(combined.as_str()) {
            Some(num) => {
                proof {
                    assert(combined@ == ip@ + fp@);
                    assert(all_digits(ip@) && all_digits(fp@)) by {
                        assert(forall|i: int|
                            0 <= i < ip@.len() ==> ip@[i] == (ip@ + fp@)[i]);
                        assert(forall|i: int|
                            0 <= i < fp@.len() ==> fp@[i] == (ip@ + fp@)[i + ip@.len()]);
                    }
                }
                if num >= 1 {
                    let den = pow10_u32(fp_len);
                    proof {
                        assert(spec_pow10(fp_len as int) >= 1) by {
                            assert(spec_pow10(0) == 1);
                            assert(spec_pow10(1) == 10);
                            assert(spec_pow10(2) == 100);
                            assert(spec_pow10(3) == 1000);
                            assert(spec_pow10(4) == 10000);
                            assert(spec_pow10(5) == 100000);
                            assert(spec_pow10(6) == 1000000);
                            assert(spec_pow10(7) == 10000000);
                            assert(spec_pow10(8) == 100000000);
                            assert(spec_pow10(9) == 1000000000);
                        }
                    }
                    Some(Scale::new(num, den))
                } else {
                    None
                }
            },
            None => {
                proof {
                    if all_digits(ip@) && all_digits(fp@) {
                        assert(all_digits(ip@ + fp@)) by {
                            assert(forall|i: int|
                                0 <= i < (ip@ + fp@).len() ==> (ip@ + fp@)[i] == (if i < ip@.len() {
                                    ip@[i]
                                } else {
                                    fp@[i - ip@.len()]
                                }));
                        }
                        assert(combined@.len() >= 1);
                    }
                }
                None
            },
        }
    }
}


/// Whether a text equals a literal.
fn string_is(a: &String, lit: &str) -> (r: bool)
    ensures
        r == (a@ == lit@),
{
    a.eq(&lit.to_owned())
}

/// The outcome of reading the arguments from position `i` on into a
/// configuration: the final configuration, or the exact diagnostic for the
/// first bad argument. `-h` and `--help` set the help flag; `-s`, `-g`,
/// `-t`, `-q` and `-l` each consume a value and fail without one; one
/// positional argument names the output file and a second is too many;
/// anything else starting with a dash is unknown.
pub open spec fn spec_parse_cli(args: Seq<String>, i: int, cfg: CliConfig) -> Result<
    CliConfig,
    Seq<char>,
>
    decreases args.len() - i,
{
    if i < 0 || i >= args.len() {
        Ok(cfg)
    } else {
        let a = args[i]@;
        if a == "-h"@ || a == "--help"@ {
            spec_parse_cli(args, i + 1, CliConfig { help: true, ..cfg })
        } else if a == "-s"@ {
            if i + 1 >= args.len() {
                Err("Error: -s requires an argument"@)
            } else {
                match spec_parse_scale(args[i + 1]@) {
                    Some(sc) => spec_parse_cli(args, i + 2, CliConfig { scale: Some(sc), ..cfg }),
                    None => Err("Invalid scale factor"@),
                }
            }
        } else if a == "-g"@ {
            if i + 1 >= args.len() {
                Err("Error: -g requires an argument"@)
            } else {
                match spec_parse_box(args[i + 1]@) {
                    Some(b) => spec_parse_cli(args, i + 2, CliConfig { geometry: Some(b), ..cfg }),
                    None => Err("Invalid geometry"@),
                }
            }
        } else if a == "-t"@ {
            if i + 1 >= args.len() {
                Err("Error: -t requires an argument"@)
            } else {
                let v = args[i + 1]@;
                if v == "png"@ {
                    spec_parse_cli(args, i + 2, CliConfig { filetype: FileType::Png, ..cfg })
                } else if v == "ppm"@ {
                    spec_parse_cli(args, i + 2, CliConfig { filetype: FileType::Ppm, ..cfg })
                } else if v == "jpeg"@ {
                    spec_parse_cli(args, i + 2, CliConfig { filetype: FileType::Jpeg, ..cfg })
                } else {
                    Err("Error: invalid filetype: "@ + v)
                }
            }
        } else if a == "-q"@ {
            if i + 1 >= args.len() {
                Err("Error: -q requires an argument"@)
            } else {
                match spec_parse_i32(args[i + 1]@) {
                    Some(v) => if 0 <= v <= 100 {
                        spec_parse_cli(
                            args,
                            i + 2,
                            CliConfig { jpeg_quality: v as u8, ..cfg },
                        )
                    } else {
                        Err("Error: JPEG quality must be between 0 and 100"@)
                    },
                    None => Err("Invalid quality value"@),
                }
            }
        } else if a == "-l"@ {
            if i + 1 >= args.len() {
                Err("Error: -l requires an argument"@)
            } else {
                match spec_parse_i32(args[i + 1]@) {
                    Some(v) => if 0 <= v <= 9 {
                        spec_parse_cli(args, i + 2, CliConfig { png_level: v as u8, ..cfg })
                    } else {
                        Err("Error: PNG compression level must be between 0 and 9"@)
                    },
                    None => Err("Invalid compression level"@),
                }
            }
        } else if a.len() > 0 && a[0] == '-' {
            Err("Error: unknown option: "@ + a)
        } else if cfg.output_path is None {
            spec_parse_cli(args, i + 1, CliConfig { output_path: Some(args[i]), ..cfg })
        } else {
            Err("Error: too many arguments"@)
        }
    }
}

/// Reads the command-line arguments (the program name excluded) into a
/// configuration, or gives the exact diagnostic for the first bad argument.
pub fn parse_cli_args(args: &Vec<String>) -> (r: Result<CliConfig, String>)
    ensures
        match r {
            Ok(cfg) => spec_parse_cli(args@, 0, spec_initial_config()) == Ok::<CliConfig, Seq<char>>(
                cfg,
            ),
            Err(m) => spec_parse_cli(args@, 0, spec_initial_config()) == Err::<CliConfig, Seq<char>>(
                m@,
            ),
        },
{
    let mut cfg = CliConfig::new();
    let n = args.len();
    let mut i: usize = 0;
    while i < n
        invariant
            n == args@.len(),
            i <= n,
            spec_parse_cli(args@, 0, spec_initial_config()) == spec_parse_cli(args@, i as int, cfg),
        decreases n - i,
    {
        let a = &args[i];
        if string_is(a, "-h") || string_is(a, "--help") {
            cfg.help = true;
            i += 1;
        } else if string_is(a, "-s") {
            if i + 1 >= n {
                return Err("Error: -s requires an argument".to_owned());
            }
            match parse_scale(args[i + 1].as_str()) {
                Some(sc) => {
                    cfg.scale = Some(sc);
                    i += 2;
                },
                None => {
                    return Err("Invalid scale factor".to_owned());
                },
            }
        } else if string_is(a, "-g") {
            if i + 1 >= n {
                return Err("Error: -g requires an argument".to_owned());
            }
            match Box::parse_text(args[i + 1].as_str()) {
                Ok(b) => {
                    cfg.geometry = Some(b);
                    i += 2;
                },
                Err(_) => {
                    return Err("Invalid geometry".to_owned());
                },
            }
        } else if string_is(a, "-t") {
            if i + 1 >= n {
                return Err("Error: -t requires an argument".to_owned());
            }
            let v = &args[i + 1];
            if string_is(v, "png") {
                cfg.filetype = FileType::Png;
                i += 2;
            } else if string_is(v, "ppm") {
                cfg.filetype = FileType::Ppm;
                i += 2;
            } else if string_is(v, "jpeg") {
                cfg.filetype = FileType::Jpeg;
                i += 2;
            } else {
                return Err("Error: invalid filetype: ".to_owned().concat(v.as_str()));
            }
        } else if string_is(a, "-q") {
            if i + 1 >= n {
                return Err("Error: -q requires an argument".to_owned());
            }
            match parse_i32_str(args[i + 1].as_str()) {
                Some(v) => {
                    if 0 <= v && v <= 100 {
                        cfg.jpeg_quality = v as u8;
                        i += 2;
                    } else {
                        return Err(
                            "Error: JPEG quality must be between 0 and 100".to_owned(),
                        );
                    }
                },
                None => {
                    return Err("Invalid quality value".to_owned());
                },
            }
        } else if string_is(a, "-l") {
            if i + 1 >= n {
                return Err("Error: -l requires an argument".to_owned());
            }
            match parse_i32_str(args[i + 1].as_str()) {
                Some(v) => {
                    if 0 <= v && v <= 9 {
                        cfg.png_level = v as u8;
                        i += 2;
                    } else {
                        return Err(
                            "Error: PNG compression level must be between 0 and 9".to_owned(),
                        );
                    }
                },
                None => {
                    return Err("Invalid compression level".to_owned());
                },
            }
        } else {
            let a_len = a.as_str().unicode_len();
            let dash = if a_len > 0 {
                a.as_str().get_char(0) == '-'
            } else {
                false
            };
            if dash {
                return Err("Error: unknown option: ".to_owned().concat(a.as_str()));
            }
            if cfg.output_path.is_none() {
                cfg.output_path = Some(a.clone());
                i += 1;
            } else {
                return Err("Error: too many arguments".to_owned());
            }
        }
    }
    Ok(cfg)
}

/// The help text: the usage line and one line for each option.
pub open spec fn spec_usage_text() -> Seq<char> {
    "Usage: grim [options...] [output-file]\n"@
        + "  -h, --help      show this help message\n"@
        + "  -s <factor>     set the scale factor of the output image\n"@
        + "  -g <geometry>   set the region to capture, as \"x,y wxh\"\n"@
        + "  -t png|ppm|jpeg set the output filetype\n"@ + "  -q <quality>    set the JPEG quality (0-100)\n"@
        + "  -l <level>      set the PNG compression level (0-9)\n"@
}

/// The help text the `-h` and `--help` flags print.
pub fn usage_text() -> (r: String)
    ensures
        r@ == spec_usage_text(),
{
    let mut out = "Usage: grim [options...] [output-file]\n".to_owned();
    out.append("  -h, --help      show this help message\n");
    out.append("  -s <factor>     set the scale factor of the output image\n");
    out.append("  -g <geometry>   set the region to capture, as \"x,y wxh\"\n");
    out.append("  -t png|ppm|jpeg set the output filetype\n");
    out.append("  -q <quality>    set the JPEG quality (0-100)\n");
    out.append("  -l <level>      set the PNG compression level (0-9)\n");
    proof {
        assert(out@ =~= spec_usage_text());
    }
    out
}
} // verus!
