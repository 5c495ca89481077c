//! What a module exports.
use crate::manifest::same_text;
use base64::alphabet::Alphabet;
use base64::engine::general_purpose::{GeneralPurpose, NO_PAD};
use base64::Engine;
use vstd::prelude::*;

verus! {

/// The newest major version of the interface that is known.
pub const NEWEST_ABI: u8 = 3;

/// How much a module may print if nothing else is said.
pub const DEFAULT_FILE_SIZE_LIMIT: usize = 1024;

/// What a module may use.
#[derive(Clone, Copy, Debug, PartialEq, Eq, Structural)]
pub struct Config {
    pub memory_size_limit: Option<usize>,
    pub file_size_limit: Option<usize>,
}

impl Default for Config {
    fn default() -> (r: Self)
        ensures
            r.memory_size_limit is None,
            r.file_size_limit is None,
    {
        Config { memory_size_limit: None, file_size_limit: None }
    }
}

impl Config {
    /// Limits the memory.
    pub fn memory_size_limit(self, limit: usize) -> (r: Self)
        ensures
            r == (Config { memory_size_limit: Some(limit), ..self }),
    {
        Config { memory_size_limit: Some(limit), file_size_limit: self.file_size_limit }
    }

    /// Limits what is printed.
    pub fn file_size_limit(self, limit: usize) -> (r: Self)
        ensures
            r == (Config { file_size_limit: Some(limit), ..self }),
    {
        Config { memory_size_limit: self.memory_size_limit, file_size_limit: Some(limit) }
    }

    /// How much may be printed.
    pub fn printed_at_most(&self) -> (r: usize)
        ensures
            r == (match self.file_size_limit {
                Some(n) => n,
                None => DEFAULT_FILE_SIZE_LIMIT,
            }),
    {
        match self.file_size_limit {
            Some(n) => n,
            None => DEFAULT_FILE_SIZE_LIMIT,
        }
    }
}

/// Why a module cannot be used.
#[derive(Clone, Copy, Debug, PartialEq, Eq, Structural)]
pub enum RuntimeError {
    VersionNotFound,
    InvalidVersion,
    /// A part of the version is no number.
    NotANumber,
    UnsupportedAbi(u8, u8),
}

/// Whether a text starts with another.
pub open spec fn starts_with(s: Seq<char>, prefix: Seq<char>) -> bool {
    s.len() >= prefix.len() && s.take(prefix.len() as int) == prefix
}

/// Whether a text ends with another.
pub open spec fn ends_with(s: Seq<char>, suffix: Seq<char>) -> bool {
    s.len() >= suffix.len() && s.skip(s.len() - suffix.len()) == suffix
}

/// Where a character first is.
pub open spec fn first_place(s: Seq<char>, c: char) -> Option<int>
    decreases s.len(),
{
    if s.len() == 0 {
        None
    } else {
        match first_place(s.drop_last(), c) {
            Some(i) => Some(i),
            None => if s.last() == c {
                Some(s.len() - 1)
            } else {
                None
            },
        }
    }
}

/// Whether all characters are decimal digits.
pub open spec fn all_digits(s: Seq<char>) -> bool {
    forall|i: int| 0 <= i < s.len() ==> '0' <= #[trigger] s[i] <= '9'
}

/// The number that decimal digits spell.
pub open spec fn spelled(s: Seq<char>) -> nat
    decreases s.len(),
{
    if s.len() == 0 {
        0
    } else {
        10 * spelled(s.drop_last()) + (s.last() as nat - '0' as nat) as nat
    }
}

/// The digits of a number, without a plus in front.
pub open spec fn without_plus(s: Seq<char>) -> Seq<char> {
    if s.len() > 0 && s[0] == '+' {
        s.skip(1)
    } else {
        s
    }
}

/// The number below 256 that a text spells, if it does.
pub open spec fn small_number(s: Seq<char>) -> Option<u8> {
    let digits = without_plus(s);
    if digits.len() > 0 && all_digits(digits) && spelled(digits) <= 255 {
        Some(spelled(digits) as u8)
    } else {
        None
    }
}

/// The version that a name spells behind the prefix.
pub open spec fn version_of_name(s: Seq<char>) -> Result<(u8, u8), RuntimeError> {
    match first_place(s, '_') {
        None => Err(RuntimeError::InvalidVersion),
        Some(i) => match (small_number(s.take(i)), small_number(s.skip(i + 1))) {
            (Some(major), Some(minor)) => if major <= NEWEST_ABI {
                Ok((major, minor))
            } else {
                Err(RuntimeError::UnsupportedAbi(major, minor))
            },
            _ => Err(RuntimeError::NotANumber),
        },
    }
}

/// What texts hold.
pub open spec fn texts(v: Seq<String>) -> Seq<Seq<char>> {
    v.map_values(|s: String| s@)
}

/// The first of the first `n` names that tells a version.
pub open spec fn first_version(names: Seq<Seq<char>>, n: nat) -> Option<int>
    decreases n,
{
    if n == 0 {
        None
    } else {
        match first_version(names, (n - 1) as nat) {
            Some(i) => Some(i),
            None => if starts_with(names[n - 1], "FFFUDE_VERSION_"@) {
                Some(n - 1)
            } else {
                None
            },
        }
    }
}

/// The version of the interface that exported names tell: the first name with the
/// prefix does.
pub open spec fn abi_of(names: Seq<Seq<char>>) -> Result<(u8, u8), RuntimeError> {
    match first_version(names, names.len()) {
        Some(i) => version_of_name(names[i].skip(15)),
        None => Err(RuntimeError::VersionNotFound),
    }
}

/// Tells whether a text starts with another.
fn has_prefix(s: &str, prefix: &str) -> (r: bool)
    ensures
        r == starts_with(s@, prefix@),
{
    let n: usize = prefix.unicode_len();
    if s.unicode_len() < n {
        return false;
    }
    same_text(s.substring_char(0, n), prefix)
}

/// Tells whether a text ends with another.
pub fn has_suffix(s: &str, suffix: &str) -> (r: bool)
    ensures
        r == ends_with(s@, suffix@),
{
    let n: usize = suffix.unicode_len();
    let len: usize = s.unicode_len();
    if len < n {
        return false;
    }
    assert(s@.skip(len - n) =~= s@.subrange(len - n, len as int));
    same_text(s.substring_char(len - n, len), suffix)
}

/// Finds a character.
fn find_char(s: &str, c: char) -> (r: Option<usize>)
    ensures
        match r {
            Some(i) => first_place(s@, c) == Some(i as int) && i < s@.len(),
            None => first_place(s@, c) is None,
        },
{
    let n: usize = s.unicode_len();
    let mut i: usize = 0;
    assert(s@.take(0) =~= Seq::empty());
    while i < n
        invariant
            i <= n,
            n == s@.len(),
            first_place(s@.take(i as int), c) is None,
        decreases n - i,
    {
        proof {
            assert(s@.take(i + 1).drop_last() =~= s@.take(i as int));
            assert(s@.take(i + 1).last() == s@[i as int]);
        }
        if s.get_char(i) == c {
            proof {
                place_stays(s@, c, i + 1);
            }
            return Some(i);
        }
        i = i + 1;
    }
    assert(s@.take(i as int) =~= s@);
    None
}

proof fn place_stays(s: Seq<char>, c: char, n: int)
    requires
        0 <= n <= s.len(),
        first_place(s.take(n), c) is Some,
    ensures
        first_place(s, c) == first_place(s.take(n), c),
    decreases s.len() - n,
{
    if n == s.len() {
        assert(s.take(n) =~= s);
    } else {
        assert(s.take(n + 1).drop_last() =~= s.take(n));
        place_stays(s, c, n + 1);
    }
}

/// Reads a number below 256.
fn parse_small(s: &str) -> (r: Option<u8>)
    ensures
        r == small_number(s@),
{
    let n: usize = s.unicode_len();
    let start: usize = if n > 0 && s.get_char(0) == '+' {
        1
    } else {
        0
    };
    let ghost digits = without_plus(s@);
    assert(digits =~= s@.skip(start as int));
    if start == n {
        return None;
    }
    let mut value: u32 = 0;
    let mut i: usize = start;
    assert(digits.take(0) =~= Seq::empty());
    while i < n
        invariant
            start <= i <= n,
            n == s@.len(),
            digits == s@.skip(start as int),
            digits == without_plus(s@),
            all_digits(digits.take(i - start)),
            value == spelled(digits.take(i - start)),
            value <= 255,
        decreases n - i,
    {
        let c: char = s.get_char(i);
        let ghost k = i - start;
        proof {
            let next = digits.take(k + 1);
            assert(next.drop_last() =~= digits.take(k));
            assert(next.last() == digits[k]);
            assert(digits[k] == c);
        }
        if c < '0' || c > '9' {
            assert(!all_digits(digits)) by {
                assert(digits[k] == c);
            }
            return None;
        }
        value = 10 * value + (c as u32 - '0' as u32);
        proof {
            let next = digits.take(k + 1);
            assert forall|j: int| 0 <= j < next.len() implies '0' <= #[trigger] next[j] <= '9' by {
                if j < k {
                    assert(digits.take(k)[j] == next[j]);
                }
            }
        }
        if value > 255 {
            proof {
                spelled_grows(digits, k + 1);
            }
            return None;
        }
        i = i + 1;
    }
    assert(digits.take(n - start) =~= digits);
    Some(value as u8)
}

proof fn spelled_grows(s: Seq<char>, n: int)
    requires
        0 <= n <= s.len(),
    ensures
        spelled(s.take(n)) <= spelled(s),
    decreases s.len() - n,
{
    if n == s.len() {
        assert(s.take(n) =~= s);
    } else {
        assert(s.take(n + 1).drop_last() =~= s.take(n));
        spelled_grows(s, n + 1);
    }
}

/// A text with all places where it has `pattern` replaced by `with`, from its start
/// on; places do not overlap.
pub open spec fn replaced(s: Seq<char>, pattern: Seq<char>, with: Seq<char>) -> Seq<char>
    decreases s.len(),
{
    if s.len() == 0 {
        s
    } else if pattern.len() > 0 && starts_with(s, pattern) {
        with + replaced(s.skip(pattern.len() as int), pattern, with)
    } else {
        seq![s[0]] + replaced(s.skip(1), pattern, with)
    }
}

/// Replaces all places where a text has `pattern`.
fn replace_all(s: &str, pattern: &str, with: &str) -> (r: String)
    requires
        pattern@.len() > 0,
    ensures
        r@ == replaced(s@, pattern@, with@),
{
    let n: usize = s.unicode_len();
    let step: usize = pattern.unicode_len();
    let mut out = String::new();
    let mut i: usize = 0;
    assert(s@.skip(0) =~= s@);
    assert(out@ + replaced(s@, pattern@, with@) =~= replaced(s@, pattern@, with@));
    while i < n
        invariant
            i <= n,
            n == s@.len(),
            step == pattern@.len(),
            step > 0,
            out@ + replaced(s@.skip(i as int), pattern@, with@) == replaced(
                s@,
                pattern@,
                with@,
            ),
        decreases n - i,
    {
        let rest = s.substring_char(i, n);
        let ghost before = out@;
        assert(rest@ =~= s@.skip(i as int));
        if has_prefix(rest, pattern) {
            out.append(with);
            proof {
                assert(s@.skip(i as int).skip(step as int) =~= s@.skip(i + step));
                let later = replaced(s@.skip(i + step), pattern@, with@);
                assert(before + with@ + later =~= before + (with@ + later));
            }
            i = i + step;
        } else {
            let one = s.substring_char(i, i + 1);
            out.append(one);
            proof {
                assert(s@.skip(i as int).skip(1) =~= s@.skip(i + 1));
                assert(one@ =~= seq![s@.skip(i as int)[0]]);
                let later = replaced(s@.skip(i + 1), pattern@, with@);
                assert(before + one@ + later =~= before + (one@ + later));
            }
            i = i + 1;
        }
    }
    assert(out@ + Seq::<char>::empty() =~= out@);
    assert(s@.skip(i as int) =~= Seq::empty());
    out
}

/// What the names of types and their fields are.
pub open spec fn types_of(v: Seq<(String, String)>) -> Seq<(Seq<char>, Seq<char>)> {
    v.map_values(|t: (String, String)| (t.0@, t.1@))
}

/// A signature with the first `n` types replaced by their fields, one type after the
/// other.
pub open spec fn inlined_once(types: Seq<(Seq<char>, Seq<char>)>, s: Seq<char>, n: nat) -> Seq<char>
    decreases n,
{
    if n == 0 {
        s
    } else {
        let (name, fields) = types[n - 1];
        replaced(
            inlined_once(types, s, (n - 1) as nat),
            "struct "@ + name,
            "struct<"@ + fields + ">"@,
        )
    }
}

/// A signature with all types replaced by their fields, `n` times over: fields may
/// have types that have fields.
pub open spec fn inlined_upto(types: Seq<(Seq<char>, Seq<char>)>, s: Seq<char>, n: nat) -> Seq<char>
    decreases n,
{
    if n == 0 {
        s
    } else {
        inlined_once(types, inlined_upto(types, s, (n - 1) as nat), types.len())
    }
}

/// Whether nothing is left to be replaced after `n` times.
pub open spec fn is_inlined(types: Seq<(Seq<char>, Seq<char>)>, s: Seq<char>, n: nat) -> bool {
    inlined_upto(types, s, n + 1) == inlined_upto(types, s, n)
}

/// Whether it comes to an end to replace types by their fields, which it does unless
/// a type has itself inside it.
pub open spec fn can_be_inlined(types: Seq<(Seq<char>, Seq<char>)>, s: Seq<char>) -> bool {
    exists|n: nat| is_inlined(types, s, n)
}

/// A signature with all types replaced by their fields until none is left.
pub open spec fn inlined(types: Seq<(Seq<char>, Seq<char>)>, s: Seq<char>) -> Seq<char> {
    inlined_upto(types, s, choose|n: nat| is_inlined(types, s, n))
}

proof fn inlined_stays(types: Seq<(Seq<char>, Seq<char>)>, s: Seq<char>, n: nat, m: nat)
    requires
        is_inlined(types, s, n),
        n <= m,
    ensures
        inlined_upto(types, s, m) == inlined_upto(types, s, n),
    decreases m,
{
    if n < m {
        inlined_stays(types, s, n, (m - 1) as nat);
    }
}

/// Without types a signature stays as it is.
pub proof fn nothing_to_inline(types: Seq<(Seq<char>, Seq<char>)>, s: Seq<char>)
    requires
        types.len() == 0,
    ensures
        can_be_inlined(types, s),
        inlined(types, s) == s,
{
    assert(inlined_upto(types, s, 0) == s);
    assert(inlined_upto(types, s, 1) == inlined_once(types, inlined_upto(types, s, 0), 0));
    assert(is_inlined(types, s, 0));
    let n = choose|n: nat| is_inlined(types, s, n);
    inlined_stays(types, s, 0, n);
}

/// Replaces each type in a signature by its fields once.
fn inline_once(types: &Vec<(String, String)>, s: &str) -> (r: String)
    ensures
        r@ == inlined_once(types_of(types@), s@, types@.len()),
{
    let ghost all = types_of(types@);
    let mut out = s.to_owned();
    let mut i: usize = 0;
    while i < types.len()
        invariant
            i <= types@.len(),
            all == types_of(types@),
            out@ == inlined_once(all, s@, i as nat),
        decreases types@.len() - i,
    {
        let mut pattern = "struct ".to_owned();
        pattern.append(types[i].0.as_str());
        let mut with = "struct<".to_owned();
        with.append(types[i].1.as_str());
        with.append(">");
        proof {
            reveal_strlit("struct ");
            assert(all[i as int] == (types@[i as int].0@, types@[i as int].1@));
        }
        out = replace_all(out.as_str(), pattern.as_str(), with.as_str());
        i = i + 1;
    }
    out
}

/// Replaces the types in a signature by their fields until none is left.
pub fn inline_types(types: &Vec<(String, String)>, s: &str) -> (r: String)
    requires
        can_be_inlined(types_of(types@), s@),
    ensures
        r@ == inlined(types_of(types@), s@),
{
    let ghost all = types_of(types@);
    let ghost end = choose|n: nat| is_inlined(all, s@, n);
    let ghost mut k: nat = 0;
    let mut now = s.to_owned();
    loop
        invariant
            all == types_of(types@),
            end == (choose|n: nat| is_inlined(all, s@, n)),
            is_inlined(all, s@, end),
            k <= end,
            now@ == inlined_upto(all, s@, k),
        decreases end - k,
    {
        let next = inline_once(types, now.as_str());
        assert(next@ == inlined_upto(all, s@, k + 1));
        if same_text(next.as_str(), now.as_str()) {
            proof {
                assert(is_inlined(all, s@, k));
                inlined_stays(all, s@, k, end);
            }
            return now;
        }
        assert(!is_inlined(all, s@, k));
        now = next;
        proof {
            k = k + 1;
        }
    }
}

/// `wasmtime::Engine`, carried through unopened.
#[verifier::external_type_specification]
#[verifier::external_body]
pub struct ExEngine(wasmtime::Engine);

/// `wasmtime::Module`, carried through unopened.
#[verifier::external_type_specification]
#[verifier::external_body]
pub struct ExModule(wasmtime::Module);

/// The names of all exports of a module with these bytes, in their order.
pub uninterp spec fn exports_of(binary: Seq<u8>) -> Seq<Seq<char>>;

/// `wasmtime::Module::from_binary` and `wasmtime::Module::exports`: compiles a module
/// and tells what it exports, one name behind the other as they stand in the module.
/// The names are a function of the bytes alone. Whether a module is compiled rests
/// on the engine too, and is left open.
#[verifier::external_body]
fn compile(engine: &wasmtime::Engine, binary: &[u8]) -> (r: Option<
    (wasmtime::Module, Vec<String>),
>)
    ensures
        r matches Some(p) ==> texts(p.1@) == exports_of(binary@),
{
    let module = wasmtime::Module::from_binary(engine, binary).ok()?;
    let names = module.exports().map(|e| e.name().to_string()).collect();
    Some((module, names))
}

/// Why a module cannot be loaded.
#[derive(Clone, Copy, Debug, PartialEq, Eq, Structural)]
pub enum LoadError {
    /// The engine does not compile it.
    NotCompiled,
    /// Its exports tell no version that is known.
    Exports(RuntimeError),
}

/// What is known of a module.
#[derive(Debug)]
pub struct Runtime {
    pub config: Config,
    /// The names of all exports.
    pub functions: Vec<String>,
    /// The types of the module with their fields.
    pub types: Vec<(String, String)>,
    pub abi_version: (u8, u8),
}

impl Runtime {
    /// Whether the types in all names can be replaced by their fields.
    pub open spec fn valid(self) -> bool {
        forall|i: int|
            0 <= i < self.functions@.len() ==> can_be_inlined(
                types_of(self.types@),
                (#[trigger] self.functions@[i])@,
            )
    }

    /// Compiles a module, if its interface is known.
    pub fn with_config_engine(binary: &[u8], config: Config, engine: &wasmtime::Engine) -> (r: Result<
        (wasmtime::Module, Self),
        LoadError,
    >)
        ensures
            match r {
                Ok(p) => {
                    &&& abi_of(exports_of(binary@)) == Ok::<(u8, u8), RuntimeError>(
                        p.1.abi_version,
                    )
                    &&& texts(p.1.functions@) == exports_of(binary@)
                    &&& p.1.types@.len() == 0
                    &&& p.1.config == config
                    &&& p.1.valid()
                },
                Err(LoadError::Exports(e)) => abi_of(exports_of(binary@)) == Err::<
                    (u8, u8),
                    RuntimeError,
                >(e),
                Err(LoadError::NotCompiled) => true,
            },
    {
        let (module, names) = match compile(engine, binary) {
            None => {
                return Err(LoadError::NotCompiled);
            },
            Some(p) => p,
        };
        match Self::init_from_exports(names, config) {
            Err(e) => Err(LoadError::Exports(e)),
            Ok(r) => Ok((module, r)),
        }
    }

    /// Compiles a module without limits, if its interface is known.
    pub fn try_new(binary: &[u8], engine: &wasmtime::Engine) -> (r: Result<
        (wasmtime::Module, Self),
        LoadError,
    >)
        ensures
            match r {
                Ok(p) => {
                    &&& abi_of(exports_of(binary@)) == Ok::<(u8, u8), RuntimeError>(
                        p.1.abi_version,
                    )
                    &&& texts(p.1.functions@) == exports_of(binary@)
                    &&& p.1.types@.len() == 0
                    &&& p.1.config.memory_size_limit is None
                    &&& p.1.config.file_size_limit is None
                    &&& p.1.valid()
                },
                Err(LoadError::Exports(e)) => abi_of(exports_of(binary@)) == Err::<
                    (u8, u8),
                    RuntimeError,
                >(e),
                Err(LoadError::NotCompiled) => true,
            },
    {
        Self::with_config_engine(binary, Config::default(), engine)
    }

    /// A module with these exports, if its interface is known.
    pub fn init_from_exports(names: Vec<String>, config: Config) -> (r: Result<Self, RuntimeError>)
        ensures
            match abi_of(texts(names@)) {
                Ok(v) => r is Ok && (r->Ok_0).config == config && (r->Ok_0).functions == names && (
                r->Ok_0).types@.len() == 0 && (r->Ok_0).abi_version == v && (r->Ok_0).valid(),
                Err(e) => r is Err && r->Err_0 == e,
            },
    {
        let ghost all = texts(names@);
        proof {
            reveal_strlit("FFFUDE_VERSION_");
        }
        let mut i: usize = 0;
        while i < names.len()
            invariant
                i <= names@.len(),
                all == texts(names@),
                "FFFUDE_VERSION_"@.len() == 15,
                first_version(all, i as nat) is None,
            decreases names@.len() - i,
        {
            assert(all[i as int] == names@[i as int]@);
            let name = names[i].as_str();
            if has_prefix(name, "FFFUDE_VERSION_") {
                let len: usize = name.unicode_len();
                let version = name.substring_char(15, len);
                assert(version@ =~= all[i as int].skip(15));
                proof {
                    version_stays(all, i as nat + 1, names@.len());
                }
                return match parse_version(version) {
                    Err(e) => Err(e),
                    Ok(v) => {
                        let r = Runtime {
                            config,
                            functions: names,
                            types: Vec::new(),
                            abi_version: v,
                        };
                        proof {
                            assert forall|i: int| 0 <= i < names@.len() implies can_be_inlined(
                                types_of(r.types@),
                                (#[trigger] r.functions@[i])@,
                            ) by {
                                nothing_to_inline(types_of(r.types@), names@[i]@);
                            }
                        }
                        Ok(r)
                    },
                };
            }
            i = i + 1;
        }
        Err(RuntimeError::VersionNotFound)
    }

    pub fn abi_version(&self) -> (r: (u8, u8))
        ensures
            r == self.abi_version,
    {
        self.abi_version
    }

    /// The names of all exports.
    pub fn functions(&self) -> (r: &Vec<String>)
        ensures
            *r == self.functions,
    {
        &self.functions
    }

    /// The types of the module with their fields.
    pub fn types(&self) -> (r: &Vec<(String, String)>)
        ensures
            *r == self.types,
    {
        &self.types
    }

    /// Tells whether a function is exported.
    pub fn has_function(&self, name: &str) -> (r: bool)
        ensures
            r == texts(self.functions@).contains(name@),
    {
        let ghost all = texts(self.functions@);
        let mut i: usize = 0;
        while i < self.functions.len()
            invariant
                i <= self.functions@.len(),
                all == texts(self.functions@),
                forall|j: int| 0 <= j < i ==> #[trigger] all[j] != name@,
            decreases self.functions@.len() - i,
        {
            if same_text(self.functions[i].as_str(), name) {
                assert(all[i as int] == name@);
                return true;
            }
            assert(all[i as int] != name@);
            i = i + 1;
        }
        false
    }

    /// Finds the function with a signature in which types are replaced by their
    /// fields.
    pub fn find_function_by_inlined_signature(&self, s: &str) -> (r: Option<&str>)
        requires
            self.valid(),
        ensures
            match r {
                Some(name) => texts(self.functions@).contains(name@) && inlined(
                    types_of(self.types@),
                    name@,
                ) == s@,
                None => forall|i: int|
                    0 <= i < self.functions@.len() ==> inlined(
                        types_of(self.types@),
                        (#[trigger] self.functions@[i])@,
                    ) != s@,
            },
    {
        let mut i: usize = 0;
        while i < self.functions.len()
            invariant
                i <= self.functions@.len(),
                self.valid(),
                forall|j: int|
                    0 <= j < i ==> inlined(
                        types_of(self.types@),
                        (#[trigger] self.functions@[j])@,
                    ) != s@,
            decreases self.functions@.len() - i,
        {
            let name = self.functions[i].as_str();
            assert(can_be_inlined(types_of(self.types@), self.functions@[i as int]@));
            let whole = inline_types(&self.types, name);
            if same_text(whole.as_str(), s) {
                assert(texts(self.functions@)[i as int] == name@);
                return Some(name);
            }
            i = i + 1;
        }
        None
    }
}

proof fn version_stays(names: Seq<Seq<char>>, i: nat, n: nat)
    requires
        0 < i <= n,
        first_version(names, i) is Some,
    ensures
        first_version(names, n) == first_version(names, i),
    decreases n,
{
    if i < n {
        version_stays(names, i, (n - 1) as nat);
    }
}

/// Reads the version behind the prefix.
fn parse_version(s: &str) -> (r: Result<(u8, u8), RuntimeError>)
    ensures
        r == version_of_name(s@),
{
    let i: usize = match find_char(s, '_') {
        None => {
            return Err(RuntimeError::InvalidVersion);
        },
        Some(i) => i,
    };
    let len: usize = s.unicode_len();
    let front = s.substring_char(0, i);
    let back = s.substring_char(i + 1, len);
    assert(front@ =~= s@.take(i as int));
    assert(back@ =~= s@.skip(i + 1));
    match (parse_small(front), parse_small(back)) {
        (Some(major), Some(minor)) => if major <= NEWEST_ABI {
            Ok((major, minor))
        } else {
            Err(RuntimeError::UnsupportedAbi(major, minor))
        },
        _ => Err(RuntimeError::NotANumber),
    }
}

/// The bytes that a text spells in base 64 with an alphabet, without padding.
pub uninterp spec fn base64_bytes(alphabet: Seq<char>, text: Seq<char>) -> Option<Seq<u8>>;

/// `base64`'s `Engine::decode` of a `GeneralPurpose` engine with this alphabet and
/// no padding: the bytes that the text spells, which are a function of the alphabet
/// and the text; none if it spells no bytes or the alphabet is none.
#[verifier::external_body]
fn decode_base64(alphabet: &str, text: &str) -> (r: Option<Vec<u8>>)
    ensures
        match r {
            Some(v) => base64_bytes(alphabet@, text@) == Some(v@),
            None => base64_bytes(alphabet@, text@) is None,
        },
{
    match Alphabet::new(alphabet) {
        Ok(a) => GeneralPurpose::new(&a, NO_PAD).decode(text).ok(),
        Err(_) => None,
    }
}

/// `String::from_utf8`: the text whose encoding in UTF-8 these bytes are, if they
/// are one.
#[verifier::external_body]
fn text_of_utf8(bytes: Vec<u8>) -> (r: Option<String>)
    ensures
        match r {
            Some(s) => vstd::utf8::valid_utf8(bytes@) && s@ == vstd::utf8::decode_utf8(bytes@),
            None => !vstd::utf8::valid_utf8(bytes@),
        },
{
    String::from_utf8(bytes).ok()
}

/// Why a symbol is no name.
#[derive(Clone, Copy, Debug, PartialEq, Eq, Structural)]
pub enum SymbolError {
    NotBase64,
    InvalidUtf8,
}

/// Reads the name that bytes spell.
pub fn symbol_text(bytes: Option<Vec<u8>>) -> (r: Result<String, SymbolError>)
    ensures
        match bytes {
            None => r is Err && r->Err_0 == SymbolError::NotBase64,
            Some(b) => if vstd::utf8::valid_utf8(b@) {
                r is Ok && (r->Ok_0)@ == vstd::utf8::decode_utf8(b@)
            } else {
                r is Err && r->Err_0 == SymbolError::InvalidUtf8
            },
        },
{
    match bytes {
        None => Err(SymbolError::NotBase64),
        Some(b) => match text_of_utf8(b) {
            Some(s) => Ok(s),
            None => Err(SymbolError::InvalidUtf8),
        },
    }
}

/// Reads a name from a symbol, which spells it in base 64. As plus and slash cannot
/// stand in a symbol, a dollar sign and an underscore stand for them.
pub fn base64_decode(input: &str) -> (r: Result<String, SymbolError>)
    ensures
        match base64_bytes(
            "ABCDEFGHIJKLMNOPQRSTUVWXYZabcdefghijklmnopqrstuvwxyz0123456789$_"@,
            input@,
        ) {
            None => r is Err && r->Err_0 == SymbolError::NotBase64,
            Some(b) => if vstd::utf8::valid_utf8(b) {
                r is Ok && (r->Ok_0)@ == vstd::utf8::decode_utf8(b)
            } else {
                r is Err && r->Err_0 == SymbolError::InvalidUtf8
            },
        },
{
    symbol_text(
        decode_base64("ABCDEFGHIJKLMNOPQRSTUVWXYZabcdefghijklmnopqrstuvwxyz0123456789$_", input),
    )
}

} // verus!
