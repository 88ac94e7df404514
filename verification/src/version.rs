//! Types representing the version number of a library.
use vstd::prelude::*;

use crate::decimal::{
    decimal, parse_error_text, parse_u32, parse_u32_spec, push_decimal, IntErrorKind, ParseIntError,
};
use crate::decimal::{
    is_digit, lemma_decimal_is_digits, lemma_parse_decimal, lemma_parse_u32_overflow, sign, zeros,
};
use crate::digit_runs::{
    lemma_patch_digits_first_run, lemma_patch_digits_of_digits, lemma_patch_digits_without_digits,
    patch_digits, patch_text,
};

verus! {

/// The `<major>.<minor>.<patch>` version of this library, as text.
///
/// Major versions are mutually incompatible for both users and implementors.
///
/// Minor allow users to have a version less than or equal to that of the implementor,
/// and disallows implementors from making changes that would break
/// any previous minor release (with the same major number).
///
/// Patch cannot change the api/abi of the library at all,fixes only.
#[derive(Debug, Copy, Clone, PartialEq, Eq)]
pub struct VersionStrings {
    pub major: &'static str,
    pub minor: &'static str,
    pub patch: &'static str,
}

/// The `<major>.<minor>.<patch>` version of a library, as numbers.
#[derive(Debug, Copy, Clone, PartialEq, Eq, Structural)]
pub struct VersionNumber {
    pub major: u32,
    pub minor: u32,
    pub patch: u32,
}

/// The outcome of reading the three fields of a version: the numbers, or
/// the name of the first field that could not be read and why.
/// The patch number is read from the first run of digits of its text
/// (`"0"` when it has none), so that suffixes such as `-rc1` are skipped.
pub open spec fn parse_version(major: Seq<char>, minor: Seq<char>, patch: Seq<char>) -> Result<
    VersionNumber,
    (Seq<char>, IntErrorKind),
> {
    match parse_u32_spec(major) {
        Err(e) => Err(("major"@, e)),
        Ok(ma) => match parse_u32_spec(minor) {
            Err(e) => Err(("minor"@, e)),
            Ok(mi) => match parse_u32_spec(patch_digits(patch)) {
                Err(e) => Err(("patch"@, e)),
                Ok(pa) => Ok(VersionNumber { major: ma, minor: mi, patch: pa }),
            },
        },
    }
}

/// `r` is what reading `vn` gives: the numbers, or an error that holds
/// `vn`, the failing field's name and the reason.
pub open spec fn is_parse_result_of(
    r: Result<VersionNumber, InvalidVersionString>,
    vn: VersionStrings,
) -> bool {
    match (r, parse_version(vn.major@, vn.minor@, vn.patch@)) {
        (Ok(v), Ok(w)) => v == w,
        (Err(e), Err((field, pe))) => {
            &&& e.spec_version_strings() == vn
            &&& e.spec_which_field() == field
            &&& e.spec_parse_error()@ == pe
        },
        _ => false,
    }
}

/// The text that `Display` writes for version strings: `major.minor.patch`.
pub open spec fn version_strings_text(vn: VersionStrings) -> Seq<char> {
    vn.major@ + seq!['.'] + vn.minor@ + seq!['.'] + vn.patch@
}

/// The text that `Display` writes for a version number: `major.minor.patch`.
pub open spec fn version_number_text(v: VersionNumber) -> Seq<char> {
    decimal(v.major as nat) + seq!['.'] + decimal(v.minor as nat) + seq!['.'] + decimal(
        v.patch as nat,
    )
}

/// The text that `Display` writes for an invalid-version error.
pub open spec fn invalid_version_text(
    vn: VersionStrings,
    which_field: Seq<char>,
    parse_error: IntErrorKind,
) -> Seq<char> {
    "\nInvalid version string:'"@ + version_strings_text(vn) + "'\nerror at the "@ + which_field
        + " field:"@ + parse_error_text(parse_error) + "\n"@
}

impl VersionStrings {
    /// Reads the version numbers out of the strings, as `VersionNumber::new`.
    pub fn parsed(self) -> (r: Result<VersionNumber, InvalidVersionString>)
        ensures
            is_parse_result_of(r, self),
    {
        VersionNumber::new(self)
    }

    /// The `major.minor.patch` text of the strings.
    pub fn display_string(&self) -> (r: String)
        ensures
            r@ == version_strings_text(*self),
    {
        proof {
            reveal_strlit(".");
        }
        let mut out = String::from_str(self.major);
        out.append(".");
        out.append(self.minor);
        out.append(".");
        out.append(self.patch);
        assert(out@ =~= version_strings_text(*self));
        out
    }
}

impl VersionNumber {
    /// Whether a user of version `self` may use an implementor of version
    /// `library_implementor`, by cargo's semver rules: for `0.y.z`, `y` is
    /// read as the major version and `z` as the minor one.
    pub open spec fn compatible(self, library_implementor: VersionNumber) -> bool {
        if self.major == 0 && library_implementor.major == 0 {
            self.minor == library_implementor.minor && self.patch <= library_implementor.patch
        } else {
            self.major == library_implementor.major && self.minor <= library_implementor.minor
        }
    }

    /// Reads the version numbers out of `vn`: `major` and `minor` as decimal
    /// `u32`s, and `patch` from the first run of digits in its text.
    pub fn new(vn: VersionStrings) -> (r: Result<Self, InvalidVersionString>)
        ensures
            is_parse_result_of(r, vn),
    {
        let major = match parse_u32(vn.major) {
            Ok(v) => v,
            Err(e) => {
                return Err(InvalidVersionString::new(vn, "major", e));
            },
        };
        let minor = match parse_u32(vn.minor) {
            Ok(v) => v,
            Err(e) => {
                return Err(InvalidVersionString::new(vn, "minor", e));
            },
        };
        let patch = match parse_u32(patch_text(vn.patch)) {
            Ok(v) => v,
            Err(e) => {
                return Err(InvalidVersionString::new(vn, "patch", e));
            },
        };
        Ok(VersionNumber { major, minor, patch })
    }

    /// Whether the `self` version number is compatible with the
    /// library_implementor version number.
    ///
    /// This uses the same semver rules as cargo:
    ///
    /// - For 0.y.z ,y is interpreted as a major version,
    ///     z is interpreted as the minor version,
    ///
    /// - For x.y.z ,x>=1,y is interpreted as a minor version.
    ///
    /// - Libraries are compatible so long as they are the same
    ///     major version with a minor_version >=`self`.
    pub fn is_compatible(self, library_implementor: VersionNumber) -> (r: bool)
        ensures
            r == self.compatible(library_implementor),
    {
        if self.major == 0 && library_implementor.major == 0 {
            self.minor == library_implementor.minor && self.patch <= library_implementor.patch
        } else {
            self.major == library_implementor.major && self.minor <= library_implementor.minor
        }
    }

    /// The `major.minor.patch` text of the version, in decimal.
    pub fn display_string(&self) -> (r: String)
        ensures
            r@ == version_number_text(*self),
    {
        proof {
            reveal_strlit(".");
        }
        let mut out = String::new();
        push_decimal(&mut out, self.major);
        out.append(".");
        push_decimal(&mut out, self.minor);
        out.append(".");
        push_decimal(&mut out, self.patch);
        assert(out@ =~= version_number_text(*self));
        out
    }
}

/// The error of reading a `VersionStrings` into a `VersionNumber`.
#[derive(Debug, Clone, PartialEq)]
pub struct InvalidVersionString {
    version_strings: VersionStrings,
    which_field: &'static str,
    parse_error: ParseIntError,
}

impl InvalidVersionString {
    /// The version strings that could not be read.
    pub closed spec fn spec_version_strings(&self) -> VersionStrings {
        self.version_strings
    }

    /// The name of the field that could not be read.
    pub closed spec fn spec_which_field(&self) -> Seq<char> {
        self.which_field@
    }

    /// Why the field could not be read.
    pub closed spec fn spec_parse_error(&self) -> ParseIntError {
        self.parse_error
    }

    fn new(
        version_strings: VersionStrings,
        which_field: &'static str,
        parse_error: ParseIntError,
    ) -> (r: Self)
        ensures
            r.spec_version_strings() == version_strings,
            r.spec_which_field() == which_field@,
            r.spec_parse_error() == parse_error,
    {
        Self { version_strings, which_field, parse_error }
    }

    /// The version strings that could not be read.
    pub fn version_strings(&self) -> (r: VersionStrings)
        ensures
            r == self.spec_version_strings(),
    {
        self.version_strings
    }

    /// The message of the error: the version strings, the field that could
    /// not be read and why, each on a line of its own.
    pub fn display_string(&self) -> (r: String)
        ensures
            r@ == invalid_version_text(
                self.spec_version_strings(),
                self.spec_which_field(),
                self.spec_parse_error()@,
            ),
    {
        let mut out = String::from_str("\nInvalid version string:'");
        let vs = self.version_strings.display_string();
        out.append(vs.as_str());
        out.append("'\nerror at the ");
        out.append(self.which_field);
        out.append(" field:");
        out.append(self.parse_error.message());
        out.append("\n");
        assert(out@ =~= invalid_version_text(
            self.spec_version_strings(),
            self.spec_which_field(),
            self.spec_parse_error()@,
        ));
        out
    }
}


/// Every version is compatible with itself.
pub proof fn lemma_compatible_reflexive(v: VersionNumber)
    ensures
        v.compatible(v),
{
}

/// Compatibility is transitive: a user of `a` that may use `b`, where a
/// user of `b` may use `c`, may use `c`.
pub proof fn lemma_compatible_transitive(a: VersionNumber, b: VersionNumber, c: VersionNumber)
    requires
        a.compatible(b),
        b.compatible(c),
    ensures
        a.compatible(c),
{
}

/// Major versions are mutually incompatible, and so, for `0.y.z`, are
/// different `y`.
pub proof fn lemma_compatible_same_major(user: VersionNumber, library_implementor: VersionNumber)
    requires
        user.compatible(library_implementor),
    ensures
        user.major == library_implementor.major,
        user.major == 0 ==> user.minor == library_implementor.minor,
        user.major != 0 ==> user.minor <= library_implementor.minor,
        user.major == 0 ==> user.patch <= library_implementor.patch,
{
}

/// From `1.0.0` on, the patch numbers have no part in compatibility.
pub proof fn lemma_compatible_ignores_patch(
    user: VersionNumber,
    library_implementor: VersionNumber,
    user_patch: u32,
    implementor_patch: u32,
)
    requires
        user.major != 0 || library_implementor.major != 0,
    ensures
        user.compatible(library_implementor) == (VersionNumber {
            patch: user_patch,
            ..user
        }).compatible(VersionNumber { patch: implementor_patch, ..library_implementor }),
{
}

/// Reading the text that `Display` writes for each field of a version
/// number gives back that version number.
pub proof fn lemma_parse_version_of_display(v: VersionNumber)
    ensures
        parse_version(decimal(v.major as nat), decimal(v.minor as nat), decimal(v.patch as nat))
            == Ok::<VersionNumber, (Seq<char>, IntErrorKind)>(v),
{
    lemma_parse_decimal(v.major);
    lemma_parse_decimal(v.minor);
    lemma_parse_decimal(v.patch);
    lemma_decimal_is_digits(v.patch as nat);
    lemma_patch_digits_of_digits(decimal(v.patch as nat));
}


/// From `1.0.0` on, a user is compatible with every implementor of the same
/// major version whose minor version is at least the user's, whatever the
/// patch numbers.
pub proof fn lemma_compatible_newer_minor(user: VersionNumber, library_implementor: VersionNumber)
    requires
        user.major != 0,
        user.major == library_implementor.major,
        user.minor <= library_implementor.minor,
    ensures
        user.compatible(library_implementor),
{
}

/// Before `1.0.0`, a user `0.y.z` is compatible with every implementor
/// `0.y.w` where `z <= w`.
pub proof fn lemma_compatible_newer_patch_before_one(
    user: VersionNumber,
    library_implementor: VersionNumber,
)
    requires
        user.major == 0,
        library_implementor.major == 0,
        user.minor == library_implementor.minor,
        user.patch <= library_implementor.patch,
    ensures
        user.compatible(library_implementor),
{
}

/// Compatibility holds exactly when the majors agree and, for `0.y.z`, the
/// `y` agree and the user's `z` is at most the implementor's, or else the
/// user's minor is at most the implementor's.
pub proof fn lemma_compatible_exactly(user: VersionNumber, library_implementor: VersionNumber)
    ensures
        user.compatible(library_implementor) <==> {
            &&& user.major == library_implementor.major
            &&& user.major == 0 ==> user.minor == library_implementor.minor && user.patch
                <= library_implementor.patch
            &&& user.major != 0 ==> user.minor <= library_implementor.minor
        },
{
}

/// Decimal major and minor numbers, and a patch text with a run of digits
/// that has only non-digits before it and a non-digit (or nothing) after
/// it, read as those three numbers: suffixes such as `-beta` or `-rc1` and
/// prefixes such as `v` do not change the patch number.
pub proof fn lemma_parse_version_reads_fields(
    major: u32,
    minor: u32,
    patch: u32,
    pre: Seq<char>,
    post: Seq<char>,
)
    requires
        forall|j: int| 0 <= j < pre.len() ==> !is_digit(#[trigger] pre[j]),
        post.len() == 0 || !is_digit(post[0]),
    ensures
        parse_version(decimal(major as nat), decimal(minor as nat), pre + decimal(patch as nat) + post)
            == Ok::<VersionNumber, (Seq<char>, IntErrorKind)>(
            VersionNumber { major, minor, patch },
        ),
{
    lemma_parse_decimal(major);
    lemma_parse_decimal(minor);
    lemma_parse_decimal(patch);
    lemma_decimal_is_digits(patch as nat);
    lemma_patch_digits_first_run(pre, decimal(patch as nat), post);
}

/// A patch text with no digit reads as patch number `0`.
pub proof fn lemma_parse_version_patch_without_digits(major: u32, minor: u32, patch: Seq<char>)
    requires
        forall|j: int| 0 <= j < patch.len() ==> !is_digit(#[trigger] patch[j]),
    ensures
        parse_version(decimal(major as nat), decimal(minor as nat), patch) == Ok::<
            VersionNumber,
            (Seq<char>, IntErrorKind),
        >(VersionNumber { major, minor, patch: 0 }),
{
    lemma_parse_decimal(major);
    lemma_parse_decimal(minor);
    lemma_parse_decimal(0);
    lemma_patch_digits_without_digits(patch);
    assert(decimal(0) =~= seq!['0']);
}

/// A first run of digits in the patch text whose value is above
/// `u32::MAX` fails the patch field with an overflow.
pub proof fn lemma_parse_version_patch_overflow(
    major: u32,
    minor: u32,
    patch: nat,
    pre: Seq<char>,
    post: Seq<char>,
)
    requires
        patch > u32::MAX,
        forall|j: int| 0 <= j < pre.len() ==> !is_digit(#[trigger] pre[j]),
        post.len() == 0 || !is_digit(post[0]),
    ensures
        parse_version(decimal(major as nat), decimal(minor as nat), pre + decimal(patch) + post)
            == Err::<VersionNumber, (Seq<char>, IntErrorKind)>(
            ("patch"@, IntErrorKind::PosOverflow),
        ),
{
    lemma_parse_decimal(major);
    lemma_parse_decimal(minor);
    lemma_decimal_is_digits(patch);
    lemma_patch_digits_first_run(pre, decimal(patch), post);
    lemma_parse_u32_overflow(patch, 0, false);
    assert(sign(false) + zeros(0) + decimal(patch) =~= decimal(patch));
}

/// The fields are read in order, and the first that fails is the one
/// reported, with its own reason, whatever the later fields hold.
pub proof fn lemma_parse_version_first_error(
    major: Seq<char>,
    minor: Seq<char>,
    patch: Seq<char>,
)
    ensures
        parse_u32_spec(major) is Err ==> parse_version(major, minor, patch) == Err::<
            VersionNumber,
            (Seq<char>, IntErrorKind),
        >(("major"@, parse_u32_spec(major)->Err_0)),
        parse_u32_spec(major) is Ok && parse_u32_spec(minor) is Err ==> parse_version(
            major,
            minor,
            patch,
        ) == Err::<VersionNumber, (Seq<char>, IntErrorKind)>(
            ("minor"@, parse_u32_spec(minor)->Err_0),
        ),
        parse_version(major, minor, patch) is Ok ==> parse_u32_spec(major) is Ok && parse_u32_spec(
            minor,
        ) is Ok,
{
}

/// The text of version strings is the major text, a `.`, the minor text, a
/// `.` and the patch text, each field kept whole.
pub proof fn lemma_version_strings_text_fields(vn: VersionStrings)
    ensures
        ({
            let t = version_strings_text(vn);
            let i = vn.major@.len() as int;
            let j = i + 1 + vn.minor@.len();
            &&& t.len() == vn.major@.len() + vn.minor@.len() + vn.patch@.len() + 2
            &&& t.take(i) == vn.major@
            &&& t[i] == '.'
            &&& t.subrange(i + 1, j) == vn.minor@
            &&& t[j] == '.'
            &&& t.skip(j + 1) == vn.patch@
        }),
{
    let t = version_strings_text(vn);
    let i = vn.major@.len() as int;
    let j = i + 1 + vn.minor@.len();
    assert(t.take(i) =~= vn.major@);
    assert(t.subrange(i + 1, j) =~= vn.minor@);
    assert(t.skip(j + 1) =~= vn.patch@);
}

/// `u` stands in `t` from position `p` on.
pub open spec fn occurs_at(t: Seq<char>, u: Seq<char>, p: int) -> bool {
    &&& 0 <= p
    &&& p + u.len() <= t.len()
    &&& t.subrange(p, p + u.len()) == u
}

/// The message of an invalid version shows the version strings, then the
/// name of the failing field, then the reason, and ends with a newline.
pub proof fn lemma_invalid_version_text_shows_all(
    vn: VersionStrings,
    which_field: Seq<char>,
    parse_error: IntErrorKind,
)
    ensures
        ({
            let t = invalid_version_text(vn, which_field, parse_error);
            &&& t.len() > 0
            &&& t.last() == '\n'
            &&& exists|p: int, q: int, r: int|
                #![trigger occurs_at(t, version_strings_text(vn), p), occurs_at(t, which_field, q), occurs_at(t, parse_error_text(parse_error), r)]
                occurs_at(t, version_strings_text(vn), p) && occurs_at(t, which_field, q)
                    && occurs_at(t, parse_error_text(parse_error), r) && p
                    + version_strings_text(vn).len() <= q && q + which_field.len() <= r
        }),
{
    reveal_strlit("\n");
    reveal_strlit("\nInvalid version string:'");
    reveal_strlit("'\nerror at the ");
    reveal_strlit(" field:");
    let t = invalid_version_text(vn, which_field, parse_error);
    let a = "\nInvalid version string:'"@;
    let vst = version_strings_text(vn);
    let b = "'\nerror at the "@;
    let c = " field:"@;
    let e = parse_error_text(parse_error);
    let p = a.len() as int;
    let q = p + vst.len() + b.len();
    let r = q + which_field.len() + c.len();
    assert(t.subrange(p, p + vst.len()) =~= vst);
    assert(t.subrange(q, q + which_field.len()) =~= which_field);
    assert(t.subrange(r, r + e.len()) =~= e);
    assert(occurs_at(t, vst, p));
    assert(occurs_at(t, which_field, q));
    assert(occurs_at(t, e, r));
}

/// `t` has exactly two `.`, at `i` and at `j`.
pub open spec fn has_two_dots_at(t: Seq<char>, i: int, j: int) -> bool {
    &&& 0 <= i < j < t.len()
    &&& t[i] == '.'
    &&& t[j] == '.'
    &&& forall|k: int| 0 <= k < t.len() && t[k] == '.' ==> k == i || k == j
}

/// The text of a version number has exactly three `.`-separated fields,
/// and reading them gives the version number back.
pub proof fn lemma_version_number_text_fields(v: VersionNumber)
    ensures
        exists|i: int, j: int|
            #[trigger] has_two_dots_at(version_number_text(v), i, j) && parse_version(
                version_number_text(v).take(i),
                version_number_text(v).subrange(i + 1, j),
                version_number_text(v).skip(j + 1),
            ) == Ok::<VersionNumber, (Seq<char>, IntErrorKind)>(v),
{
    let a = decimal(v.major as nat);
    let b = decimal(v.minor as nat);
    let c = decimal(v.patch as nat);
    let t = version_number_text(v);
    lemma_decimal_is_digits(v.major as nat);
    lemma_decimal_is_digits(v.minor as nat);
    lemma_decimal_is_digits(v.patch as nat);
    let i = a.len() as int;
    let j = i + 1 + b.len();
    assert(t.take(i) =~= a);
    assert(t.subrange(i + 1, j) =~= b);
    assert(t.skip(j + 1) =~= c);
    assert forall|k: int| 0 <= k < t.len() && t[k] == '.' implies k == i || k == j by {
        if k < i {
            assert(t[k] == a[k]);
            assert(is_digit(a[k]));
        } else if i < k < j {
            assert(t[k] == b[k - i - 1]);
            assert(is_digit(b[k - i - 1]));
        } else if k > j {
            assert(t[k] == c[k - j - 1]);
            assert(is_digit(c[k - j - 1]));
        }
    }
    assert(has_two_dots_at(t, i, j));
    lemma_parse_version_of_display(v);
}

} // verus!
