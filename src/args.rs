//! The command line of the stand-alone program: flags, the two options that
//! take a value, and the positional source and destination paths.

use vstd::prelude::*;

verus! {

/// Whether `c` is an ASCII decimal digit.
pub open spec fn is_digit(c: char) -> bool {
    '0' as u32 <= c as u32 <= '9' as u32
}

/// The number that a string of decimal digits stands for.
pub open spec fn digits_value(s: Seq<char>) -> int
    decreases s.len(),
{
    if s.len() == 0 {
        0
    } else {
        10 * digits_value(s.drop_last()) + (s.last() as u32 - '0' as u32)
    }
}

/// The digits of a decimal numeral: what follows a leading `+`, if any.
pub open spec fn unsigned_part(s: Seq<char>) -> Seq<char> {
    if s.len() > 0 && s[0] == '+' {
        s.subrange(1, s.len() as int)
    } else {
        s
    }
}

/// The number that `s` writes in decimal, the way Rust reads unsigned
/// integers: an optional `+` and at least one digit, nothing else.
pub open spec fn decimal_value(s: Seq<char>) -> Option<int> {
    let d = unsigned_part(s);
    if d.len() > 0 && forall|i: int| 0 <= i < d.len() ==> is_digit(#[trigger] d[i]) {
        Some(digits_value(d))
    } else {
        None
    }
}

/// The number that `s` writes in decimal, if it is at most `max`.
pub open spec fn decimal_at_most(s: Seq<char>, max: int) -> Option<int> {
    match decimal_value(s) {
        Some(v) => if v <= max {
            Some(v)
        } else {
            None
        },
        None => None,
    }
}

proof fn lemma_value_nonnegative(s: Seq<char>)
    requires
        forall|i: int| 0 <= i < s.len() ==> is_digit(#[trigger] s[i]),
    ensures
        digits_value(s) >= 0,
    decreases s.len(),
{
    if s.len() > 0 {
        let t = s.drop_last();
        assert forall|i: int| 0 <= i < t.len() implies is_digit(#[trigger] t[i]) by {
            assert(t[i] == s[i]);
        }
        assert(is_digit(s[s.len() - 1]));
        lemma_value_nonnegative(t);
    }
}

/// Among digit strings, a longer one stands for at least as much as its prefix.
proof fn lemma_prefix_value_le(s: Seq<char>, k: int)
    requires
        0 <= k <= s.len(),
        forall|i: int| 0 <= i < s.len() ==> is_digit(#[trigger] s[i]),
    ensures
        digits_value(s.subrange(0, k)) <= digits_value(s),
    decreases s.len(),
{
    if k < s.len() {
        let t = s.drop_last();
        assert forall|i: int| 0 <= i < t.len() implies is_digit(#[trigger] t[i]) by {
            assert(t[i] == s[i]);
        }
        assert(is_digit(s[s.len() - 1]));
        assert(t.subrange(0, k) =~= s.subrange(0, k));
        lemma_prefix_value_le(t, k);
        lemma_value_nonnegative(t);
    } else {
        assert(s.subrange(0, k) =~= s);
    }
}

/// The number `s` writes in decimal, if it is at most `max`.
pub fn parse_decimal(s: &str, max: u64) -> (r: Option<u64>)
    ensures
        r matches Some(v) ==> decimal_at_most(s@, max as int) == Some(v as int),
        r is None ==> decimal_at_most(s@, max as int) is None,
{
    let n = s.unicode_len();
    let start: usize = if n > 0 && s.get_char(0) == '+' {
        1
    } else {
        0
    };
    let ghost d = unsigned_part(s@);
    proof {
        assert(d =~= s@.subrange(start as int, n as int));
    }
    if start == n {
        return None;
    }
    let mut value: u64 = 0;
    let mut i: usize = start;
    while i < n
        invariant
            start <= i <= n,
            n == s@.len(),
            start < n,
            d == s@.subrange(start as int, n as int),
            d == unsigned_part(s@),
            value <= max,
            value == digits_value(d.subrange(0, i - start)),
            forall|j: int| 0 <= j < i - start ==> is_digit(#[trigger] d[j]),
        decreases n - i,
    {
        let c = s.get_char(i);
        proof {
            assert(c == d[i - start]);
        }
        if !(c >= '0' && c <= '9') {
            proof {
                assert(!('0' as u32 <= c as u32 && c as u32 <= '9' as u32));
                assert(!is_digit(d[i - start]));
                assert(!is_digit(unsigned_part(s@)[i - start]));
            }
            return None;
        }
        let digit = (c as u32 - '0' as u32) as u64;
        proof {
            assert(d.subrange(0, i + 1 - start).drop_last() =~= d.subrange(0, i - start));
            assert(d.subrange(0, i + 1 - start).last() == d[i - start]);
        }
        let next = match value.checked_mul(10) {
            Some(tens) => match tens.checked_add(digit) {
                Some(v) => if v <= max {
                    Some(v)
                } else {
                    None
                },
                None => None,
            },
            None => None,
        };
        match next {
            Some(v) => {
                value = v;
            },
            None => {
                proof {
                    if forall|j: int| 0 <= j < d.len() ==> is_digit(#[trigger] d[j]) {
                        lemma_prefix_value_le(d, i + 1 - start);
                        assert(digits_value(d) > max);
                    } else {
                        let k = choose|k: int| 0 <= k < d.len() && !is_digit(#[trigger] d[k]);
                        assert(!is_digit(unsigned_part(s@)[k]));
                    }
                }
                return None;
            },
        }
        i = i + 1;
    }
    proof {
        assert(d.subrange(0, n - start) =~= d);
    }
    Some(value)
}

/// The command line as values: what `Args::parse` reads.
pub struct ArgsView {
    pub source: Seq<Seq<char>>,
    pub destination: Seq<char>,
    pub streams: u32,
    pub verbose: u8,
    pub compress_level: Option<u8>,
    pub error_check: bool,
    pub preserve: bool,
    pub resume: bool,
    pub list_transfers: bool,
    pub version: bool,
    pub license: bool,
    pub help: bool,
}

/// The settings before any argument is read.
pub open spec fn default_args() -> ArgsView {
    ArgsView {
        source: Seq::empty(),
        destination: Seq::empty(),
        streams: 4,
        verbose: 0,
        compress_level: None,
        error_check: false,
        preserve: false,
        resume: false,
        list_transfers: false,
        version: false,
        license: false,
        help: false,
    }
}

/// A positional argument: one that does not start with `-`.
pub open spec fn is_positional(a: Seq<char>) -> bool {
    a.len() == 0 || a[0] != '-'
}

/// The stream count an `-s` value gives: the number it writes, or 4 when it
/// is not a number that fits.
pub open spec fn streams_value(a: Seq<char>) -> u32 {
    match decimal_at_most(a, u32::MAX as int) {
        Some(v) => v as u32,
        None => 4,
    }
}

/// The compression level a `-c` value gives: the number it writes, or none.
pub open spec fn level_value(a: Seq<char>) -> Option<u8> {
    match decimal_at_most(a, u8::MAX as int) {
        Some(v) => Some(v as u8),
        None => None,
    }
}

/// Positional arguments are collected in order; which of them is the
/// destination is settled once all are read.
pub open spec fn add_positional(acc: ArgsView, a: Seq<char>) -> ArgsView {
    ArgsView { source: acc.source.push(a), ..acc }
}

/// The last positional argument is the destination, the ones before it the
/// sources, as in `bbcpr [OPTIONS] [SOURCE]... DESTINATION`.
pub open spec fn settle(acc: ArgsView) -> ArgsView {
    if acc.source.len() > 0 {
        ArgsView { destination: acc.source.last(), source: acc.source.drop_last(), ..acc }
    } else {
        acc
    }
}

/// What reading the argument at position `i` does: the position of the
/// next argument to read, and the settings after it. `-s` and `-c` take the
/// following argument as their value; unknown options are skipped.
pub open spec fn step(args: Seq<Seq<char>>, i: int, acc: ArgsView) -> (int, ArgsView) {
    let a = args[i];
    let has_value = i + 1 < args.len();
    if a == "--version"@ || a == "-#"@ {
        (i + 1, ArgsView { version: true, ..acc })
    } else if a == "--license"@ {
        (i + 1, ArgsView { license: true, ..acc })
    } else if a == "--help"@ || a == "-h"@ {
        (i + 1, ArgsView { help: true, ..acc })
    } else if a == "-v"@ {
        (
            i + 1,
            ArgsView {
                verbose: if acc.verbose < u8::MAX {
                    (acc.verbose + 1) as u8
                } else {
                    acc.verbose
                },
                ..acc
            },
        )
    } else if a == "-e"@ {
        (i + 1, ArgsView { error_check: true, ..acc })
    } else if a == "-p"@ {
        (i + 1, ArgsView { preserve: true, ..acc })
    } else if a == "-R"@ || a == "--resume"@ {
        (i + 1, ArgsView { resume: true, ..acc })
    } else if a == "--list-transfers"@ {
        (i + 1, ArgsView { list_transfers: true, ..acc })
    } else if a == "-s"@ {
        if has_value {
            (i + 2, ArgsView { streams: streams_value(args[i + 1]), ..acc })
        } else {
            (i + 1, acc)
        }
    } else if a == "-c"@ {
        if has_value {
            (i + 2, ArgsView { compress_level: level_value(args[i + 1]), ..acc })
        } else {
            (i + 1, acc)
        }
    } else if is_positional(a) {
        (i + 1, add_positional(acc, a))
    } else {
        (i + 1, acc)
    }
}

/// Reading the arguments from position `i` on, with `acc` read so far.
pub open spec fn parse_from(args: Seq<Seq<char>>, i: int, acc: ArgsView) -> ArgsView
    decreases args.len() - i,
{
    if i < 0 || i >= args.len() {
        settle(acc)
    } else {
        let (j, next) = step(args, i, acc);
        if i < j {
            parse_from(args, j, next)
        } else {
            settle(acc)
        }
    }
}

/// The positional arguments from position `i` on, in order: those that do
/// not start with `-` and are not the value of `-s` or `-c`.
pub open spec fn positionals_from(args: Seq<Seq<char>>, i: int) -> Seq<Seq<char>>
    decreases args.len() - i,
{
    if i < 0 || i >= args.len() {
        Seq::empty()
    } else {
        let (j, next) = step(args, i, default_args());
        if i < j {
            next.source + positionals_from(args, j)
        } else {
            Seq::empty()
        }
    }
}

/// Reading one argument moves on the same way whatever was read before, and
/// adds to the positional arguments read so far only what it reads itself.
proof fn lemma_step_positionals(args: Seq<Seq<char>>, i: int, acc: ArgsView)
    requires
        0 <= i < args.len(),
    ensures
        step(args, i, acc).0 == step(args, i, default_args()).0,
        i < step(args, i, acc).0,
        step(args, i, acc).1.source == acc.source + step(args, i, default_args()).1.source,
        step(args, i, acc).1.destination == acc.destination,
{
    assert(acc.source + Seq::<Seq<char>>::empty() =~= acc.source);
    assert(acc.source.push(args[i]) =~= acc.source + Seq::<Seq<char>>::empty().push(args[i]));
}

proof fn lemma_parse_positionals(args: Seq<Seq<char>>, i: int, acc: ArgsView)
    requires
        0 <= i,
        acc.destination.len() == 0,
    ensures
        ({
            let all = acc.source + positionals_from(args, i);
            let r = parse_from(args, i, acc);
            &&& all.len() > 0 ==> r.destination == all.last() && r.source == all.drop_last()
            &&& all.len() == 0 ==> r.destination.len() == 0 && r.source.len() == 0
        }),
    decreases args.len() - i,
{
    if i >= args.len() {
        assert(acc.source + positionals_from(args, i) =~= acc.source);
    } else {
        lemma_step_positionals(args, i, acc);
        let (j, next) = step(args, i, acc);
        lemma_parse_positionals(args, j, next);
        assert(next.source + positionals_from(args, j) =~= acc.source + positionals_from(args, i));
    }
}

/// The last positional argument is the destination and the ones before it,
/// in order, are the sources: `bbcpr [OPTIONS] [SOURCE]... DESTINATION`.
pub proof fn lemma_destination_is_last(args: Seq<Seq<char>>)
    ensures
        ({
            let ps = positionals_from(args, 1);
            let r = parse_from(args, 1, default_args());
            &&& ps.len() > 0 ==> r.destination == ps.last() && r.source == ps.drop_last()
            &&& ps.len() == 0 ==> r.destination.len() == 0 && r.source.len() == 0
        }),
{
    lemma_parse_positionals(args, 1, default_args());
    assert(default_args().source + positionals_from(args, 1) =~= positionals_from(args, 1));
}

/// The settings of the stand-alone program.
pub struct Args {
    pub source: Vec<String>,
    pub destination: String,
    pub streams: u32,
    pub verbose: u8,
    pub compress_level: Option<u8>,
    pub error_check: bool,
    pub preserve: bool,
    pub resume: bool,
    pub list_transfers: bool,
    pub version: bool,
    pub license: bool,
    pub help: bool,
}

impl View for Args {
    type V = ArgsView;

    open spec fn view(&self) -> ArgsView {
        ArgsView {
            source: self.source@.map_values(|s: String| s@),
            destination: self.destination@,
            streams: self.streams,
            verbose: self.verbose,
            compress_level: self.compress_level,
            error_check: self.error_check,
            preserve: self.preserve,
            resume: self.resume,
            list_transfers: self.list_transfers,
            version: self.version,
            license: self.license,
            help: self.help,
        }
    }
}

/// Whether two strings hold the same characters.
fn same_text(a: &str, b: &str) -> (r: bool)
    ensures
        r == (a@ == b@),
{
    let n = a.unicode_len();
    if n != b.unicode_len() {
        return false;
    }
    let mut i: usize = 0;
    while i < n
        invariant
            0 <= i <= n,
            n == a@.len(),
            n == b@.len(),
            forall|j: int| 0 <= j < i ==> a@[j] == b@[j],
        decreases n - i,
    {
        if a.get_char(i) != b.get_char(i) {
            return false;
        }
        i = i + 1;
    }
    proof {
        assert(a@ =~= b@);
    }
    true
}

/// Reads the argument at position `i` into `result`; returns the position
/// of the next argument.
#[verifier::rlimit(100)]
fn read_arg(result: &mut Args, args: &Vec<String>, i: usize) -> (next: usize)
    requires
        1 <= i < args.len(),
    ensures
        (next as int, final(result)@) == step(args@.map_values(|s: String| s@), i as int, old(result)@),
        i < next,
{
    let ghost words = args@.map_values(|s: String| s@);
    let a = args[i].as_str();
    let has_value = i + 1 < args.len();
    let ghost before = result@;
    assert(a@ == words[i as int]);
    if same_text(a, "--version") || same_text(a, "-#") {
        result.version = true;
    } else if same_text(a, "--license") {
        result.license = true;
    } else if same_text(a, "--help") || same_text(a, "-h") {
        result.help = true;
    } else if same_text(a, "-v") {
        if result.verbose < u8::MAX {
            result.verbose = result.verbose + 1;
        }
    } else if same_text(a, "-e") {
        result.error_check = true;
    } else if same_text(a, "-p") {
        result.preserve = true;
    } else if same_text(a, "-R") || same_text(a, "--resume") {
        result.resume = true;
    } else if same_text(a, "--list-transfers") {
        result.list_transfers = true;
    } else if same_text(a, "-s") {
        if has_value {
            assert(args[i as int + 1]@ == words[i + 1]);
            result.streams = match parse_decimal(args[i + 1].as_str(), u32::MAX as u64) {
                Some(v) => v as u32,
                None => 4,
            };
            return i + 2;
        }
    } else if same_text(a, "-c") {
        if has_value {
            assert(args[i as int + 1]@ == words[i + 1]);
            result.compress_level = match parse_decimal(args[i + 1].as_str(), u8::MAX as u64) {
                Some(v) => Some(v as u8),
                None => None,
            };
            return i + 2;
        }
    } else if a.unicode_len() == 0 || a.get_char(0) != '-' {
        result.source.push(args[i].clone());
        proof {
            assert(result@.source =~= before.source.push(a@));
        }
    }
    i + 1
}

impl Args {
    /// Reads the command line `args`, whose first element is the program
    /// name and is skipped.
    pub fn parse(args: &Vec<String>) -> (r: Args)
        ensures
            r@ == parse_from(args@.map_values(|s: String| s@), 1, default_args()),
    {
        let ghost words = args@.map_values(|s: String| s@);
        let mut result = Args {
            source: Vec::new(),
            destination: String::new(),
            streams: 4,
            verbose: 0,
            compress_level: None,
            error_check: false,
            preserve: false,
            resume: false,
            list_transfers: false,
            version: false,
            license: false,
            help: false,
        };
        proof {
            assert(result@.source =~= Seq::<Seq<char>>::empty());
            assert(result@ == default_args());
        }
        let mut i: usize = 1;
        while i < args.len()
            invariant
                1 <= i,
                words == args@.map_values(|s: String| s@),
                parse_from(words, i as int, result@) == parse_from(words, 1, default_args()),
            decreases args.len() - i,
        {
            i = read_arg(&mut result, args, i);
        }
        if result.source.len() > 0 {
            let ghost before = result@;
            match result.source.pop() {
                Some(last) => {
                    result.destination = last;
                },
                None => {},
            }
            proof {
                assert(result@.source =~= before.source.drop_last());
            }
        }
        result
    }
}

} // verus!
