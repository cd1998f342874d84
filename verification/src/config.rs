//! Settings of the proxy and their defaults.

use vstd::prelude::*;
use vstd::string::*;
use crate::util::same_text;

verus! {

/// The number of bytes that the size text `text` stands for, such as
/// `"24MiB"`; `None` where `text` is no size.
pub uninterp spec fn byte_size_of(text: Seq<char>) -> Option<u64>;

/// `text` in lower case.
pub uninterp spec fn lowercase_of(text: Seq<char>) -> Seq<char>;

/// Whether `c` is one of the digits `0` to `9`.
pub open spec fn is_digit(c: char) -> bool {
    '0' <= c <= '9'
}

/// Whether `c` is the letter of one of the units giga, tera and peta, in
/// either case.
pub open spec fn is_large_unit(c: char) -> bool {
    c == 'g' || c == 'G' || c == 't' || c == 'T' || c == 'p' || c == 'P'
}

/// The number of digits in `text`.
pub open spec fn digit_count(text: Seq<char>) -> nat
    decreases text.len(),
{
    if text.len() == 0 {
        0
    } else if is_digit(text.last()) {
        digit_count(text.drop_last()) + 1
    } else {
        digit_count(text.drop_last())
    }
}

/// Whether `text` holds the letter of one of the units giga, tera and
/// peta.
pub open spec fn names_large_unit(text: Seq<char>) -> bool {
    exists|i: int| 0 <= i < text.len() && is_large_unit(#[trigger] text[i])
}

/// The most digits that a size text with a large unit may hold.
pub const MAX_DIGITS: usize = 4;

/// Whether the size that `text` stands for can be computed in 64 bits
/// whatever its unit: `text` holds at most `MAX_DIGITS` digits, so that its
/// number is below ten thousand, or it names none of the units giga, tera
/// and peta, the only ones whose sizes are computed by a multiplication of
/// integers.
pub open spec fn is_safe_size(text: Seq<char>) -> bool {
    digit_count(text) <= MAX_DIGITS || !names_large_unit(text)
}

/// Reads a size given as a number with an optional unit of bytes.
///
/// Calls `byte_unit::Byte::from_str` and `Byte::get_bytes`. The result is
/// what these two give for `text`, named `byte_size_of(text)`; a text that
/// `from_str` refuses gives `None`. For the units giga, tera and peta
/// `from_str` multiplies integers of 64 bits, which overflows for a number
/// of 16384 or more; `is_safe_size` leaves such texts out.
#[verifier::external_body]
pub(crate) fn parse_size(text: &str) -> (size: Option<u64>)
    requires
        is_safe_size(text@),
    ensures
        size == byte_size_of(text@),
{
    match byte_unit::Byte::from_str(text) {
        Ok(bytes) => Some(bytes.get_bytes()),
        Err(_) => None,
    }
}

/// Puts a text into lower case.
///
/// Calls `str::to_lowercase`; the result is named `lowercase_of(text)`.
#[verifier::external_body]
pub(crate) fn to_lowercase(text: &str) -> (lower: String)
    ensures
        lower@ == lowercase_of(text@),
{
    text.to_lowercase()
}

/// Tells whether the size that `text` stands for can be computed in 64
/// bits whatever its unit.
pub fn is_safe_size_text(text: &str) -> (safe: bool)
    ensures
        safe == is_safe_size(text@),
{
    let n: usize = text.unicode_len();
    let mut digits: usize = 0;
    let mut large: bool = false;
    let mut seen: usize = 0;
    for c in it: text.chars()
        invariant
            n == text@.len(),
            it.seq() == text@,
            seen == it.index(),
            digits <= seen,
            digits == digit_count(text@.take(seen as int)),
            large == names_large_unit(text@.take(seen as int)),
    {
        proof {
            let before = text@.take(seen as int);
            let after = text@.take(seen + 1);
            assert(after.drop_last() =~= before);
            assert(after.last() == c);
            if names_large_unit(before) {
                let i = choose|i: int| 0 <= i < before.len() && is_large_unit(#[trigger] before[i]);
                assert(is_large_unit(after[i]));
            }
            if is_large_unit(c) {
                assert(is_large_unit(after[seen as int]));
            }
            if names_large_unit(after) && !is_large_unit(c) {
                let i = choose|i: int| 0 <= i < after.len() && is_large_unit(#[trigger] after[i]);
                assert(is_large_unit(before[i]));
            }
        }
        if c >= '0' && c <= '9' {
            digits += 1;
        }
        if c == 'g' || c == 'G' || c == 't' || c == 'T' || c == 'p' || c == 'P' {
            large = true;
        }
        seen += 1;
    }
    assert(text@.take(seen as int) =~= text@);
    digits <= MAX_DIGITS || !large
}

/// Reads a size given as a number with an optional unit of bytes, such as
/// `"24MiB"`. A text that is no size gives `None`, and so does a text with
/// more than `MAX_DIGITS` digits and one of the units giga, tera and peta.
pub fn read_size(text: &str) -> (size: Option<u64>)
    ensures
        size == if is_safe_size(text@) {
            byte_size_of(text@)
        } else {
            None
        },
{
    if is_safe_size_text(text) {
        parse_size(text)
    } else {
        None
    }
}

/// The default texts name a small unit: they are safe to read.
proof fn lemma_defaults_are_safe()
    ensures
        is_safe_size("512MiB"@),
        is_safe_size("24MiB"@),
{
    reveal_strlit("512MiB");
    reveal_strlit("24MiB");
    let a = "512MiB"@;
    let b = "24MiB"@;
    assert(a =~= seq!['5', '1', '2', 'M', 'i', 'B']);
    assert(b =~= seq!['2', '4', 'M', 'i', 'B']);
    assert(!names_large_unit(a));
    assert(!names_large_unit(b));
}

/// Size limit of one object where none is configured: 24 MiB.
pub const DEFAULT_FILE_MAX: u64 = 25_165_824;

/// Size limit of the cache directory where none is configured: 512 MiB.
pub const DEFAULT_CACHE_MAX: u64 = 536_870_912;

/// Time to live of a cached object where none is configured: one day, in
/// seconds.
pub const DEFAULT_EXPIRY: u32 = 86_400;

/// When the log is written in colour.
#[derive(Debug, Clone, Copy, PartialEq, Eq, Structural)]
pub enum LogStyle {
    Auto,
    Always,
    Never,
}

impl Default for LogStyle {
    fn default() -> (style: Self)
        ensures
            style == LogStyle::Auto,
    {
        LogStyle::Auto
    }
}

/// The style that a lower-case name stands for.
pub open spec fn style_named(name: Seq<char>) -> Option<LogStyle> {
    if name == "auto"@ {
        Some(LogStyle::Auto)
    } else if name == "always"@ {
        Some(LogStyle::Always)
    } else if name == "never"@ {
        Some(LogStyle::Never)
    } else {
        None
    }
}

impl LogStyle {
    /// Whether the log is coloured, given whether standard output is a
    /// terminal.
    pub fn is_color(&self, stdout_is_terminal: bool) -> (color: bool)
        ensures
            color == match self {
                LogStyle::Auto => stdout_is_terminal,
                LogStyle::Always => true,
                LogStyle::Never => false,
            },
    {
        match self {
            LogStyle::Auto => stdout_is_terminal,
            LogStyle::Always => true,
            LogStyle::Never => false,
        }
    }

    /// The style with the lower-case name `name`: `auto`, `always` or
    /// `never`.
    pub fn from_lowercase(name: &str) -> (style: Option<LogStyle>)
        ensures
            style == style_named(name@),
    {
        if same_text(name, "auto") {
            Some(LogStyle::Auto)
        } else if same_text(name, "always") {
            Some(LogStyle::Always)
        } else if same_text(name, "never") {
            Some(LogStyle::Never)
        } else {
            None
        }
    }

    /// Reads a style from its name in any case. A name that stands for no
    /// style comes back in lower case as the error.
    pub fn parse(name: &str) -> (style: Result<LogStyle, String>)
        ensures
            match style {
                Ok(s) => style_named(lowercase_of(name@)) == Some(s),
                Err(unknown) => style_named(lowercase_of(name@)) is None && unknown@
                    == lowercase_of(name@),
            },
    {
        let lower = to_lowercase(name);
        match LogStyle::from_lowercase(lower.as_str()) {
            Some(s) => Ok(s),
            None => Err(lower),
        }
    }
}

/// Settings of the log.
#[derive(Debug, Clone)]
pub struct Log {
    pub level: String,
    pub style: LogStyle,
}

impl Default for Log {
    fn default() -> (log: Self)
        ensures
            log.level@ == "simple=info"@,
            log.style == LogStyle::Auto,
    {
        Log { level: Log::level(), style: LogStyle::default() }
    }
}

impl Log {
    /// The log filter where none is configured.
    pub fn level() -> (level: String)
        ensures
            level@ == "simple=info"@,
    {
        String::from_str("simple=info")
    }
}

/// A configured size, or `fallback` where the text was no size.
pub open spec fn size_or(parsed: Option<u64>, fallback: u64) -> u64 {
    match parsed {
        Some(size) => size,
        None => fallback,
    }
}

/// Settings of the cache directory.
#[derive(Debug, Clone)]
pub struct Cache {
    /// The directory that holds the cached objects.
    pub path: String,
    /// Most bytes that the cached objects may take together.
    pub max: u64,
    /// Seconds after which a cached object is removed.
    pub expiry: u32,
}

impl Default for Cache {
    fn default() -> (cache: Self)
        ensures
            cache.path@ == "cache"@,
            cache.max == size_or(byte_size_of("512MiB"@), DEFAULT_CACHE_MAX),
            cache.expiry == DEFAULT_EXPIRY,
    {
        Cache { path: Cache::path(), max: Cache::max(), expiry: Cache::expiry() }
    }
}

impl Cache {
    /// The cache directory where none is configured.
    pub fn path() -> (path: String)
        ensures
            path@ == "cache"@,
    {
        String::from_str("cache")
    }

    /// The size limit of the cache directory where none is configured.
    pub fn max() -> (max: u64)
        ensures
            max == size_or(byte_size_of("512MiB"@), DEFAULT_CACHE_MAX),
    {
        proof {
            lemma_defaults_are_safe();
        }
        size_or_default(parse_size("512MiB"), DEFAULT_CACHE_MAX)
    }

    /// The time to live where none is configured, in seconds.
    pub fn expiry() -> (expiry: u32)
        ensures
            expiry == DEFAULT_EXPIRY,
    {
        DEFAULT_EXPIRY
    }
}

/// Settings of the proxy.
#[derive(Debug, Clone)]
pub struct Config {
    /// Most bytes that one object from upstream may have.
    pub file_max: u64,
    /// The token that a request must carry, if any.
    pub token: Option<String>,
    pub log: Log,
    /// The address to listen on, as host and port.
    pub addr: String,
    pub cache: Cache,
}

impl Default for Config {
    fn default() -> (config: Self)
        ensures
            config.file_max == size_or(byte_size_of("24MiB"@), DEFAULT_FILE_MAX),
            config.token is None,
            config.log.level@ == "simple=info"@,
            config.log.style == LogStyle::Auto,
            config.addr@ == "127.0.0.1:3030"@,
            config.cache.path@ == "cache"@,
            config.cache.max == size_or(byte_size_of("512MiB"@), DEFAULT_CACHE_MAX),
            config.cache.expiry == DEFAULT_EXPIRY,
    {
        Config {
            file_max: Config::file_max(),
            token: None,
            log: Log::default(),
            addr: Config::addr(),
            cache: Cache::default(),
        }
    }
}

impl Config {
    /// The size limit of one object where none is configured.
    pub fn file_max() -> (max: u64)
        ensures
            max == size_or(byte_size_of("24MiB"@), DEFAULT_FILE_MAX),
    {
        proof {
            lemma_defaults_are_safe();
        }
        size_or_default(parse_size("24MiB"), DEFAULT_FILE_MAX)
    }

    /// The address to listen on where none is configured.
    pub fn addr() -> (addr: String)
        ensures
            addr@ == "127.0.0.1:3030"@,
    {
        String::from_str("127.0.0.1:3030")
    }
}

/// A size as a configuration source gives it: a number of bytes, or a text
/// with a unit.
#[derive(Debug, Clone)]
pub enum SizeValue {
    Number(u64),
    Text(String),
}

impl SizeValue {
    /// The number of bytes that the value stands for; `None` for a text that
    /// is no size, and for one with more than `MAX_DIGITS` digits and one
    /// of the units giga, tera and peta.
    pub fn to_bytes(&self) -> (bytes: Option<u64>)
        ensures
            bytes == match self {
                SizeValue::Number(n) => Some(*n),
                SizeValue::Text(text) => if is_safe_size(text@) {
                    byte_size_of(text@)
                } else {
                    None
                },
            },
    {
        match self {
            SizeValue::Number(n) => Some(*n),
            SizeValue::Text(text) => read_size(text.as_str()),
        }
    }
}

/// The size that reading a size text came to, or `fallback` where the text
/// was no size.
pub fn size_or_default(parsed: Option<u64>, fallback: u64) -> (size: u64)
    ensures
        size == size_or(parsed, fallback),
{
    match parsed {
        Some(size) => size,
        None => fallback,
    }
}

} // verus!
