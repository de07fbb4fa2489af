//! The naming convention of migration scripts:
//! `<version>_<description>[.up|.down].sql`.

use vstd::prelude::*;

use crate::text::{chars_of, string_of};
use crate::types::{MigrationType, ResolveError};

verus! {

pub open spec fn is_digit(c: char) -> bool {
    '0' <= c && c <= '9'
}

pub open spec fn all_digits(s: Seq<char>) -> bool {
    forall|i: int| 0 <= i < s.len() ==> is_digit(#[trigger] s[i])
}

/// The number that a string of decimal digits denotes.
pub open spec fn decimal_value(s: Seq<char>) -> int
    decreases s.len(),
{
    if s.len() == 0 {
        0
    } else {
        decimal_value(s.drop_last()) * 10 + ((s.last() as int) - ('0' as int))
    }
}

pub open spec fn digit_char(d: int) -> char {
    if d == 0 {
        '0'
    } else if d == 1 {
        '1'
    } else if d == 2 {
        '2'
    } else if d == 3 {
        '3'
    } else if d == 4 {
        '4'
    } else if d == 5 {
        '5'
    } else if d == 6 {
        '6'
    } else if d == 7 {
        '7'
    } else if d == 8 {
        '8'
    } else {
        '9'
    }
}

/// The decimal digits of `n`, without leading zeros.
pub open spec fn decimal(n: nat) -> Seq<char>
    decreases n,
{
    if n < 10 {
        seq![digit_char(n as int)]
    } else {
        decimal(n / 10).push(digit_char((n % 10) as int))
    }
}

/// The file-name suffix of each kind of script.
pub open spec fn suffix(t: MigrationType) -> Seq<char> {
    match t {
        MigrationType::Simple => seq!['.', 's', 'q', 'l'],
        MigrationType::ReversibleUp => seq!['.', 'u', 'p', '.', 's', 'q', 'l'],
        MigrationType::ReversibleDown => seq!['.', 'd', 'o', 'w', 'n', '.', 's', 'q', 'l'],
    }
}

pub open spec fn ends_with(s: Seq<char>, suf: Seq<char>) -> bool {
    suf.len() <= s.len() && s.subrange(s.len() - suf.len(), s.len() as int) == suf
}

/// The kind of script that a name (after the first underscore) denotes.
pub open spec fn type_of(rest: Seq<char>) -> MigrationType {
    if ends_with(rest, suffix(MigrationType::ReversibleUp)) {
        MigrationType::ReversibleUp
    } else if ends_with(rest, suffix(MigrationType::ReversibleDown)) {
        MigrationType::ReversibleDown
    } else {
        MigrationType::Simple
    }
}

/// A description as written in a file name: spaces become underscores.
pub open spec fn encode(d: Seq<char>) -> Seq<char> {
    Seq::new(d.len(), |i: int| if d[i] == ' ' { '_' } else { d[i] })
}

/// A description as read from a file name: underscores become spaces.
pub open spec fn decode(s: Seq<char>) -> Seq<char> {
    Seq::new(s.len(), |i: int| if s[i] == '_' { ' ' } else { s[i] })
}

pub open spec fn is_first_underscore(s: Seq<char>, k: int) -> bool {
    &&& 0 <= k < s.len()
    &&& s[k] == '_'
    &&& forall|j: int| 0 <= j < k ==> s[j] != '_'
}

/// The outcome of reading a file name.
pub enum NameParse {
    /// Not a migration script: no `.sql` suffix.
    NotMigration,
    /// A script whose name has no underscore, or whose part before the first
    /// underscore is not a version.
    BadVersion,
    /// Nothing between the underscore and the suffix.
    NoDescription,
    Parsed { version: i64, description: Seq<char>, migration_type: MigrationType },
}

/// What a file name says of the script it names.
pub open spec fn parse_spec(name: Seq<char>) -> NameParse {
    if !ends_with(name, suffix(MigrationType::Simple)) {
        NameParse::NotMigration
    } else if !(exists|k: int| is_first_underscore(name, k)) {
        NameParse::BadVersion
    } else {
        let k = choose|k: int| is_first_underscore(name, k);
        let prefix = name.take(k);
        let rest = name.skip(k + 1);
        if prefix.len() == 0 || !all_digits(prefix) || decimal_value(prefix)
            > i64::MAX as int {
            NameParse::BadVersion
        } else {
            let t = type_of(rest);
            let d = rest.take(rest.len() - suffix(t).len());
            if d.len() == 0 {
                NameParse::NoDescription
            } else {
                NameParse::Parsed {
                    version: decimal_value(prefix) as i64,
                    description: decode(d),
                    migration_type: t,
                }
            }
        }
    }
}

/// The file name of a script.
pub open spec fn format_spec(version: nat, description: Seq<char>, t: MigrationType) -> Seq<
    char,
> {
    decimal(version) + seq!['_'] + encode(description) + suffix(t)
}

/// A description that a file name carries unchanged: not empty, no underscore,
/// and, for a simple script, no ending that reads as a reversible suffix.
pub open spec fn valid_description(d: Seq<char>, t: MigrationType) -> bool {
    &&& d.len() > 0
    &&& forall|i: int| 0 <= i < d.len() ==> d[i] != '_'
    &&& t is Simple ==> !ends_with(d, seq!['.', 'u', 'p']) && !ends_with(
        d,
        seq!['.', 'd', 'o', 'w', 'n'],
    )
}

/// What a migration script's name says of it.
#[derive(Clone, Debug)]
pub struct ParsedName {
    pub version: i64,
    pub description: String,
    pub migration_type: MigrationType,
}

/// How a call of `parse_name` on `name` relates to what the name says.
pub open spec fn parse_outcome(
    name: Seq<char>,
    r: Result<Option<ParsedName>, ResolveError>,
) -> bool {
    match parse_spec(name) {
        NameParse::NotMigration => r is Ok && r->Ok_0 is None,
        NameParse::BadVersion => r is Err && r->Err_0 is InvalidVersion && r->Err_0->InvalidVersion_name@
            == name,
        NameParse::NoDescription => r is Err && r->Err_0 is MissingDescription
            && r->Err_0->MissingDescription_name@ == name,
        NameParse::Parsed { version, description, migration_type } => {
            &&& r is Ok
            &&& r->Ok_0 is Some
            &&& r->Ok_0->Some_0.version == version
            &&& r->Ok_0->Some_0.description@ == description
            &&& r->Ok_0->Some_0.migration_type == migration_type
        },
    }
}

fn digit_to_char(d: u64) -> (c: char)
    requires
        d < 10,
    ensures
        c == digit_char(d as int),
{
    if d == 0 {
        '0'
    } else if d == 1 {
        '1'
    } else if d == 2 {
        '2'
    } else if d == 3 {
        '3'
    } else if d == 4 {
        '4'
    } else if d == 5 {
        '5'
    } else if d == 6 {
        '6'
    } else if d == 7 {
        '7'
    } else if d == 8 {
        '8'
    } else {
        '9'
    }
}

fn push_decimal(n: u64, out: &mut Vec<char>)
    ensures
        final(out)@ == old(out)@ + decimal(n as nat),
    decreases n,
{
    if n >= 10 {
        push_decimal(n / 10, out);
    }
    out.push(digit_to_char(n % 10));
    assert(out@ =~= old(out)@ + decimal(n as nat));
}

/// The characters of the suffix of a kind of script.
fn suffix_chars(t: MigrationType) -> (r: Vec<char>)
    ensures
        r@ == suffix(t),
{
    let mut r: Vec<char> = Vec::new();
    r.push('.');
    match t {
        MigrationType::Simple => {},
        MigrationType::ReversibleUp => {
            r.push('u');
            r.push('p');
            r.push('.');
        },
        MigrationType::ReversibleDown => {
            r.push('d');
            r.push('o');
            r.push('w');
            r.push('n');
            r.push('.');
        },
    }
    r.push('s');
    r.push('q');
    r.push('l');
    assert(r@ =~= suffix(t));
    r
}

/// The file name of a script of kind `t` at `version` with `description`.
pub fn format_name(version: i64, description: &str, t: MigrationType) -> (r: String)
    requires
        version >= 0,
    ensures
        r@ == format_spec(version as nat, description@, t),
{
    let mut out: Vec<char> = Vec::new();
    push_decimal(version as u64, &mut out);
    out.push('_');
    let ghost pre = out@;
    let d = chars_of(description);
    let mut i: usize = 0;
    while i < d.len()
        invariant
            i <= d@.len(),
            d@ == description@,
            out@ == pre + encode(d@.take(i as int)),
        decreases d.len() - i,
    {
        let c = d[i];
        out.push(if c == ' ' { '_' } else { c });
        i = i + 1;
        assert(out@ =~= pre + encode(d@.take(i as int)));
    }
    assert(d@.take(i as int) =~= d@);
    let suf = suffix_chars(t);
    let mut j: usize = 0;
    let ghost mid = out@;
    while j < suf.len()
        invariant
            j <= suf@.len(),
            suf@ == suffix(t),
            out@ == mid + suf@.take(j as int),
        decreases suf.len() - j,
    {
        out.push(suf[j]);
        j = j + 1;
        assert(out@ =~= mid + suf@.take(j as int));
    }
    assert(suf@.take(j as int) =~= suf@);
    assert(out@ =~= format_spec(version as nat, description@, t));
    string_of(&out)
}

fn first_underscore(s: &Vec<char>) -> (r: Option<usize>)
    ensures
        r is Some ==> is_first_underscore(s@, r->0 as int),
        r is None ==> forall|k: int| !is_first_underscore(s@, k),
{
    let mut i: usize = 0;
    while i < s.len()
        invariant
            i <= s@.len(),
            forall|j: int| 0 <= j < i ==> s@[j] != '_',
        decreases s.len() - i,
    {
        if s[i] == '_' {
            return Some(i);
        }
        i = i + 1;
    }
    None
}

/// Whether the characters of `s` from `lo` on end with `suf`.
fn ends_with_from(s: &Vec<char>, lo: usize, suf: &Vec<char>) -> (r: bool)
    requires
        lo <= s@.len(),
    ensures
        r == ends_with(s@.skip(lo as int), suf@),
{
    let ghost rest = s@.skip(lo as int);
    if suf.len() > s.len() - lo {
        return false;
    }
    let start = s.len() - suf.len();
    let mut i: usize = 0;
    while i < suf.len()
        invariant
            start + suf@.len() == s@.len(),
            lo <= start,
            rest == s@.skip(lo as int),
            s@.len() <= usize::MAX,
            i <= suf@.len(),
            forall|j: int| 0 <= j < i ==> s@[start + j] == suf@[j],
        decreases suf.len() - i,
    {
        if s[start + i] != suf[i] {
            assert(rest.subrange(rest.len() - suf@.len(), rest.len() as int)[i as int] != suf@[i as int]);
            return false;
        }
        i = i + 1;
    }
    assert(rest.subrange(rest.len() - suf@.len(), rest.len() as int) =~= suf@);
    true
}

proof fn lemma_decimal_nonneg(s: Seq<char>)
    requires
        all_digits(s),
    ensures
        decimal_value(s) >= 0,
    decreases s.len(),
{
    if s.len() > 0 {
        assert(all_digits(s.drop_last()));
        assert(is_digit(s[s.len() - 1]));
        lemma_decimal_nonneg(s.drop_last());
    }
}

proof fn lemma_decimal_prefix(s: Seq<char>, i: int)
    requires
        all_digits(s),
        0 <= i <= s.len(),
    ensures
        decimal_value(s.take(i)) <= decimal_value(s),
    decreases s.len(),
{
    if i < s.len() {
        assert(all_digits(s.drop_last()));
        assert(is_digit(s[s.len() - 1]));
        lemma_decimal_nonneg(s.drop_last());
        lemma_decimal_prefix(s.drop_last(), i);
        assert(s.drop_last().take(i) =~= s.take(i));
    } else {
        assert(s.take(i) =~= s);
    }
}

/// The version that the first `hi` characters of `s` spell, if they are
/// decimal digits whose number fits in `i64`.
fn parse_decimal(s: &Vec<char>, hi: usize) -> (r: Option<i64>)
    requires
        hi <= s@.len(),
    ensures
        r == (if hi > 0 && all_digits(s@.take(hi as int)) && decimal_value(s@.take(hi as int))
            <= i64::MAX as int {
            Some(decimal_value(s@.take(hi as int)) as i64)
        } else {
            None::<i64>
        }),
{
    if hi == 0 {
        return None;
    }
    let mut value: i64 = 0;
    let mut i: usize = 0;
    assert(s@.take(0) =~= Seq::<char>::empty());
    while i < hi
        invariant
            i <= hi <= s@.len(),
            all_digits(s@.take(i as int)),
            value as int == decimal_value(s@.take(i as int)),
            value >= 0,
        decreases hi - i,
    {
        let c = s[i];
        let ghost next = s@.take(i + 1);
        assert(next.drop_last() =~= s@.take(i as int));
        if !('0' <= c && c <= '9') {
            assert(!is_digit(s@.take(hi as int)[i as int]));
            return None;
        }
        let d = (c as u32 - '0' as u32) as i64;
        assert(all_digits(next));
        if value > (i64::MAX - d) / 10 {
            proof {
                if all_digits(s@.take(hi as int)) {
                    lemma_decimal_prefix(s@.take(hi as int), i + 1);
                    assert(s@.take(hi as int).take(i + 1) =~= next);
                }
            }
            return None;
        }
        value = value * 10 + d;
        i = i + 1;
    }
    assert(s@.take(hi as int) =~= s@.take(i as int));
    Some(value)
}

/// The description held by `s[lo..hi]`, underscores read as spaces.
fn decode_range(s: &Vec<char>, lo: usize, hi: usize) -> (r: Vec<char>)
    requires
        lo <= hi <= s@.len(),
    ensures
        r@ == decode(s@.subrange(lo as int, hi as int)),
{
    let mut r: Vec<char> = Vec::new();
    let mut i: usize = lo;
    while i < hi
        invariant
            lo <= i <= hi <= s@.len(),
            r@ == decode(s@.subrange(lo as int, i as int)),
        decreases hi - i,
    {
        let c = s[i];
        r.push(if c == '_' { ' ' } else { c });
        i = i + 1;
        assert(r@ =~= decode(s@.subrange(lo as int, i as int)));
    }
    r
}

/// Reads a script's file name: `Ok(None)` when it does not end in `.sql`, an
/// error when its version (before the first underscore) or its description is
/// missing or malformed.
pub fn parse_name(name: &str) -> (r: Result<Option<ParsedName>, ResolveError>)
    ensures
        parse_outcome(name@, r),
{
    let cs = chars_of(name);
    let n = cs.len();
    let sql = suffix_chars(MigrationType::Simple);
    if !ends_with_from(&cs, 0, &sql) {
        assert(cs@.skip(0) =~= cs@);
        return Ok(None);
    }
    assert(cs@.skip(0) =~= cs@);
    let k = match first_underscore(&cs) {
        None => {
            return Err(ResolveError::InvalidVersion { name: name.to_owned() });
        },
        Some(k) => k,
    };
    proof {
        assert(forall|k2: int| is_first_underscore(cs@, k2) ==> k2 == k as int) by {
            assert forall|k2: int| is_first_underscore(cs@, k2) implies k2 == k as int by {
                if k2 < k as int {
                    assert(cs@[k2] != '_');
                } else if k2 > k as int {
                    assert(cs@[k as int] != '_');
                }
            }
        }
    }
    let ghost rest = cs@.skip(k + 1);
    proof {
        let tail = cs@.subrange(n - 4, n as int);
        assert(tail =~= sql@);
        if k as int >= n - 4 {
            assert(tail[k - (n - 4)] == cs@[k as int]);
        }
        assert(rest.subrange(rest.len() - 4, rest.len() as int) =~= sql@) by {
            assert forall|j: int| 0 <= j < 4 implies #[trigger] rest.subrange(rest.len() - 4, rest.len() as int)[j] == tail[j] by {}
        }
    }
    let version = match parse_decimal(&cs, k) {
        None => {
            return Err(ResolveError::InvalidVersion { name: name.to_owned() });
        },
        Some(v) => v,
    };
    let up = suffix_chars(MigrationType::ReversibleUp);
    let down = suffix_chars(MigrationType::ReversibleDown);
    let t = if ends_with_from(&cs, k + 1, &up) {
        MigrationType::ReversibleUp
    } else if ends_with_from(&cs, k + 1, &down) {
        MigrationType::ReversibleDown
    } else {
        MigrationType::Simple
    };
    let suf_len: usize = match t {
        MigrationType::Simple => sql.len(),
        MigrationType::ReversibleUp => up.len(),
        MigrationType::ReversibleDown => down.len(),
    };
    let hi = cs.len() - suf_len;
    assert(rest.take(rest.len() - suffix(t).len()) =~= cs@.subrange(k + 1, hi as int));
    if hi == k + 1 {
        return Err(ResolveError::MissingDescription { name: name.to_owned() });
    }
    let description = decode_range(&cs, k + 1, hi);
    Ok(Some(ParsedName { version, description: string_of(&description), migration_type: t }))
}

proof fn lemma_digit_char(d: int)
    requires
        0 <= d < 10,
    ensures
        digit_char(d) as int - '0' as int == d,
        is_digit(digit_char(d)),
{
}

proof fn lemma_decimal(n: nat)
    ensures
        decimal(n).len() > 0,
        all_digits(decimal(n)),
        decimal_value(decimal(n)) == n,
    decreases n,
{
    if n < 10 {
        let s = decimal(n);
        assert(s.drop_last() =~= Seq::<char>::empty());
        lemma_digit_char(n as int);
        assert(decimal_value(s) == decimal_value(s.drop_last()) * 10 + ((s.last() as int) - ('0' as int)));
        assert(decimal_value(s.drop_last()) == 0);
    } else {
        lemma_digit_char((n % 10) as int);
        assert((n / 10) * 10 + n % 10 == n);
        lemma_decimal(n / 10);
        let s = decimal(n);
        assert(s.drop_last() =~= decimal(n / 10));
        assert(s.last() == digit_char((n % 10) as int));
        assert(decimal_value(s) == decimal_value(s.drop_last()) * 10 + ((s.last() as int) - ('0' as int)));
        assert(all_digits(s)) by {
            assert forall|i: int| 0 <= i < s.len() implies is_digit(#[trigger] s[i]) by {
                if i < s.len() - 1 {
                    assert(s[i] == decimal(n / 10)[i]);
                }
            }
        }
    }
}

proof fn lemma_encode_ends_with(d: Seq<char>, x: Seq<char>)
    requires
        ends_with(encode(d), x),
        forall|i: int| 0 <= i < x.len() ==> x[i] != '_',
    ensures
        ends_with(d, x),
{
    let e = encode(d);
    assert(d.subrange(d.len() - x.len(), d.len() as int) =~= x) by {
        assert forall|i: int| 0 <= i < x.len() implies d[d.len() - x.len() + i] == x[i] by {
            assert(e.subrange(e.len() - x.len(), e.len() as int)[i] == x[i]);
        }
    }
}

/// Reading the name that `format_name` gives a script recovers its version,
/// description and kind, for every non-negative version and every description
/// that a file name can carry unchanged.
pub proof fn lemma_name_round_trip(version: i64, description: Seq<char>, t: MigrationType)
    requires
        version >= 0,
        valid_description(description, t),
    ensures
        parse_spec(format_spec(version as nat, description, t)) == (NameParse::Parsed {
            version,
            description,
            migration_type: t,
        }),
{
    let dig = decimal(version as nat);
    let e = encode(description);
    let suf = suffix(t);
    let name = format_spec(version as nat, description, t);
    lemma_decimal(version as nat);
    let k = dig.len() as int;
    assert(is_first_underscore(name, k)) by {
        assert forall|j: int| 0 <= j < k implies name[j] != '_' by {
            assert(name[j] == dig[j]);
            assert(is_digit(dig[j]));
        }
    }
    assert forall|k2: int| is_first_underscore(name, k2) implies k2 == k by {
        if k2 < k {
            assert(name[k2] == dig[k2]);
            assert(is_digit(dig[k2]));
        } else if k2 > k {
            assert(name[k] == '_');
        }
    }
    let prefix = name.take(k);
    let rest = name.skip(k + 1);
    assert(prefix =~= dig);
    assert(rest =~= e + suf);
    let sql = suffix(MigrationType::Simple);
    assert(rest.subrange(rest.len() - 4, rest.len() as int) =~= sql);
    assert(name.subrange(name.len() - 4, name.len() as int) =~= sql);
    assert(type_of(rest) == t) by {
        let up = suffix(MigrationType::ReversibleUp);
        let down = suffix(MigrationType::ReversibleDown);
        match t {
            MigrationType::ReversibleUp => {
                assert(rest.subrange(rest.len() - 7, rest.len() as int) =~= up);
            },
            MigrationType::ReversibleDown => {
                assert(rest.subrange(rest.len() - 7, rest.len() as int)[0] == 'o');
                assert(!ends_with(rest, up));
                assert(rest.subrange(rest.len() - 9, rest.len() as int) =~= down);
            },
            MigrationType::Simple => {
                if ends_with(rest, up) {
                    assert(ends_with(e, seq!['.', 'u', 'p'])) by {
                        assert(e.subrange(e.len() - 3, e.len() as int) =~= seq!['.', 'u', 'p']) by {
                            assert forall|i: int| 0 <= i < 3 implies e[e.len() - 3 + i] == #[trigger] rest.subrange(rest.len() - 7, rest.len() as int)[i] by {}
                        }
                    }
                    lemma_encode_ends_with(description, seq!['.', 'u', 'p']);
                }
                if ends_with(rest, down) {
                    assert(ends_with(e, seq!['.', 'd', 'o', 'w', 'n'])) by {
                        assert(e.subrange(e.len() - 5, e.len() as int) =~= seq!['.', 'd', 'o', 'w', 'n']) by {
                            assert forall|i: int| 0 <= i < 5 implies e[e.len() - 5 + i] == #[trigger] rest.subrange(rest.len() - 9, rest.len() as int)[i] by {}
                        }
                    }
                    lemma_encode_ends_with(description, seq!['.', 'd', 'o', 'w', 'n']);
                }
            },
        }
    }
    let d = rest.take(rest.len() - suf.len());
    assert(d =~= e);
    assert(decode(e) =~= description);
}

} // verus!
