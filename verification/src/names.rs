//! Filename extensions and collision-free generated names for stored files.
use vstd::prelude::*;

verus! {

/// How many fresh random prefixes are tried before name generation gives up.
pub const MAX_NAME_ATTEMPTS: usize = 64;

/// True when the sequence holds at least one `.`.
pub open spec fn has_dot(s: Seq<char>) -> bool {
    exists|i: int| 0 <= i < s.len() && s[i] == '.'
}

/// True when position `i` holds the last `.` of the sequence.
pub open spec fn is_last_dot(s: Seq<char>, i: int) -> bool {
    &&& 0 <= i < s.len()
    &&& s[i] == '.'
    &&& forall|j: int| i < j < s.len() ==> s[j] != '.'
}

/// The position of the last `.` of the sequence (meaningful only under `has_dot`).
pub open spec fn last_dot(s: Seq<char>) -> int {
    choose|i: int| is_last_dot(s, i)
}

/// The extension of a filename: everything after the last `.`, or the empty
/// sequence when the name holds no `.` at all.
pub open spec fn ext_of(s: Seq<char>) -> Seq<char> {
    if has_dot(s) {
        s.subrange(last_dot(s) + 1, s.len() as int)
    } else {
        Seq::empty()
    }
}

/// A sequence with a dot has a last dot.
proof fn lemma_exists_last_dot(s: Seq<char>)
    requires
        has_dot(s),
    ensures
        exists|i: int| is_last_dot(s, i),
    decreases s.len(),
{
    if s.len() > 0 {
        if s.last() == '.' {
            assert(is_last_dot(s, s.len() - 1));
        } else {
            let w = choose|i: int| 0 <= i < s.len() && s[i] == '.';
            assert(s.drop_last()[w] == '.');
            lemma_exists_last_dot(s.drop_last());
            let k = choose|i: int| is_last_dot(s.drop_last(), i);
            assert forall|j: int| k < j < s.len() implies s[j] != '.' by {
                if j < s.len() - 1 {
                    assert(s.drop_last()[j] != '.');
                }
            }
            assert(is_last_dot(s, k));
        }
    }
}

/// If `i` holds the last dot, then `last_dot` picks exactly `i`.
proof fn lemma_last_dot_is(s: Seq<char>, i: int)
    requires
        is_last_dot(s, i),
    ensures
        has_dot(s),
        last_dot(s) == i,
{
    assert(has_dot(s));
    lemma_exists_last_dot(s);
    let k = last_dot(s);
    assert(is_last_dot(s, k));
    if k < i {
        assert(s[i] == '.');
        assert(false);
    } else if k > i {
        assert(s[k] == '.');
        assert(false);
    }
}

/// Wherever the last dot of a filename stands, the extension is exactly
/// what follows it.
pub proof fn lemma_ext_at(s: Seq<char>, i: int)
    requires
        is_last_dot(s, i),
    ensures
        ext_of(s) == s.subrange(i + 1, s.len() as int),
{
    lemma_last_dot_is(s, i);
}

/// Extracts the extension of a filename: the substring after the last `.`,
/// or the empty string when the name holds none.
pub fn extension_of(filename: &String) -> (r: String)
    ensures
        r@ == ext_of(filename@),
{
    let s: &str = filename.as_str();
    let n: usize = s.unicode_len();
    let mut i: usize = n;
    while i > 0
        invariant
            i <= n,
            n == s@.len(),
            s@ == filename@,
            forall|j: int| i <= j < n ==> s@[j] != '.',
        decreases i,
    {
        i = i - 1;
        let c = s.get_char(i);
        if c == '.' {
            let e: &str = s.substring_char(i + 1, n);
            proof {
                lemma_last_dot_is(s@, i as int);
            }
            return e.to_owned();
        }
    }
    proof {
        if has_dot(filename@) {
            let w = choose|i: int| 0 <= i < filename@.len() && filename@[i] == '.';
            assert(filename@[w] != '.');
        }
        assert(ext_of(filename@) =~= Seq::<char>::empty());
    }
    String::new()
}

/// True of ASCII letters and digits, the alphabet of generated prefixes.
pub open spec fn is_alphanum(c: char) -> bool {
    ||| 'A' as u32 <= c as u32 && c as u32 <= 'Z' as u32
    ||| 'a' as u32 <= c as u32 && c as u32 <= 'z' as u32
    ||| '0' as u32 <= c as u32 && c as u32 <= '9' as u32
}

/// The shape of every stored name: six random alphanumeric characters, one
/// `.`, then the original extension (possibly empty, leaving a trailing dot).
pub open spec fn is_generated_name(name: Seq<char>, ext: Seq<char>) -> bool {
    &&& name.len() == 7 + ext.len()
    &&& (forall|i: int| 0 <= i < 6 ==> is_alphanum(name[i]))
    &&& name[6] == '.'
    &&& name.subrange(7, name.len() as int) == ext
}

/// For every filename: when it holds a dot, a stored name generated for it
/// carries exactly the substring after the last dot as its extension; when
/// it holds none, the stored extension is empty and the stored name ends
/// with a trailing dot.
pub proof fn lemma_stored_name_extension(name: Seq<char>, filename: Seq<char>)
    requires
        is_generated_name(name, ext_of(filename)),
    ensures
        has_dot(filename) ==> name.subrange(7, name.len() as int) == filename.subrange(
            last_dot(filename) + 1,
            filename.len() as int,
        ),
        !has_dot(filename) ==> name.len() == 7 && name.last() == '.',
{
}

/// True when some stored file already carries the name.
pub open spec fn name_taken(existing: Seq<String>, name: Seq<char>) -> bool {
    exists|k: int| 0 <= k < existing.len() && existing[k]@ == name
}

/// Relies on rand's `Alphanumeric` distribution: every sampled byte is an
/// ASCII letter (A-Z, a-z) or digit (0-9).
#[verifier::external_body]
fn random_alphanumeric_char() -> (c: char)
    ensures
        is_alphanum(c),
{
    let b: u8 = rand::RngExt::sample(&mut rand::rng(), rand::distr::Alphanumeric);
    b as char
}

/// Relies on std's `String::push`: appends exactly one character at the end.
#[verifier::external_body]
fn push_char(s: &mut String, c: char)
    ensures
        final(s)@ == old(s)@.push(c),
{
    s.push(c)
}

/// Draws a fresh prefix of six random alphanumeric characters.
fn random_prefix() -> (r: String)
    ensures
        r@.len() == 6,
        forall|i: int| 0 <= i < 6 ==> is_alphanum(r@[i]),
{
    let mut s = String::new();
    let mut k: usize = 0;
    while k < 6
        invariant
            k <= 6,
            s@.len() == k,
            forall|i: int| 0 <= i < k ==> is_alphanum(s@[i]),
        decreases 6 - k,
    {
        let c = random_alphanumeric_char();
        push_char(&mut s, c);
        k = k + 1;
    }
    s
}

/// True when the name is already carried by one of the existing files.
pub fn contains_name(existing: &Vec<String>, name: &String) -> (r: bool)
    ensures
        r == name_taken(existing@, name@),
{
    let mut k: usize = 0;
    while k < existing.len()
        invariant
            k <= existing@.len(),
            forall|j: int| 0 <= j < k ==> existing@[j]@ != name@,
        decreases existing@.len() - k,
    {
        if existing[k].eq(name) {
            return true;
        }
        k = k + 1;
    }
    false
}

/// Joins a prefix with `"." + ext` and accepts the name only when no stored
/// file already carries it; rejects it otherwise.
pub fn try_name(prefix: &String, ext: &String, existing: &Vec<String>) -> (r: Option<String>)
    ensures
        match r {
            Some(name) => {
                &&& name@ == prefix@ + seq!['.'] + ext@
                &&& !name_taken(existing@, name@)
            },
            None => name_taken(existing@, prefix@ + seq!['.'] + ext@),
        },
{
    let mut name = prefix.clone();
    name.append(".");
    name.append(ext.as_str());
    proof {
        reveal_strlit(".");
        assert("."@ =~= seq!['.']);
        assert(name@ == prefix@ + seq!['.'] + ext@);
    }
    if contains_name(existing, &name) {
        None
    } else {
        Some(name)
    }
}

/// Generates a stored name for the extension: six random alphanumeric
/// characters, a `.`, then the extension. Retries with a fresh prefix as
/// long as the name is already in use; gives up after a fixed number of
/// attempts. A returned name never collides with an existing file, and
/// against an empty directory generation always succeeds.
pub fn gen_name(ext: &String, existing: &Vec<String>) -> (r: Option<String>)
    ensures
        match r {
            Some(name) => {
                &&& is_generated_name(name@, ext@)
                &&& !name_taken(existing@, name@)
            },
            None => true,
        },
        existing@.len() == 0 ==> r is Some,
{
    let mut attempts: usize = 0;
    while attempts < MAX_NAME_ATTEMPTS
        invariant
            attempts > 0 ==> existing@.len() > 0,
        decreases MAX_NAME_ATTEMPTS - attempts,
    {
        let prefix = random_prefix();
        if let Some(name) = try_name(&prefix, ext, existing) {
            proof {
                let n = name@;
                assert(n.len() == 7 + ext@.len());
                assert forall|i: int| 0 <= i < 6 implies is_alphanum(n[i]) by {
                    assert(n[i] == prefix@[i]);
                }
                assert(n[6] == '.');
                assert(n.subrange(7, n.len() as int) =~= ext@);
            }
            return Some(name);
        }
        attempts = attempts + 1;
    }
    None
}

} // verus!
