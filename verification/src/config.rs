//! The server's configuration: the site base URL used to build public
//! links and the shared secret, both fixed once at startup.
use vstd::prelude::*;

verus! {

/// The configuration, built once at startup and handed to every handler.
pub struct Config {
    /// The site base URL that public links start with.
    pub site: String,
    /// The shared secret that privileged operations require.
    pub api_key: String,
}

impl Config {
    /// Builds a configuration from the base URL and the shared secret.
    pub fn new(site: String, api_key: String) -> (r: Config)
        ensures
            r.site@ == site@,
            r.api_key@ == api_key@,
    {
        Config { site, api_key }
    }

    /// The configured site base URL.
    pub fn get_website(&self) -> (r: &String)
        ensures
            r@ == self.site@,
    {
        &self.site
    }
}

/// The white space stripped from the key file: the Unicode `White_Space`
/// characters, exactly what `str::trim` strips.
pub open spec fn is_space(c: char) -> bool {
    ||| c as u32 == 0x20
    ||| 0x9 <= c as u32 && c as u32 <= 0xd
    ||| c as u32 == 0x85 || c as u32 == 0xa0 || c as u32 == 0x1680
    ||| 0x2000 <= c as u32 && c as u32 <= 0x200a
    ||| c as u32 == 0x2028 || c as u32 == 0x2029 || c as u32 == 0x202f
    ||| c as u32 == 0x205f || c as u32 == 0x3000
}

/// Tests a character for Unicode white space.
fn is_space_char(c: char) -> (b: bool)
    ensures
        b == is_space(c),
{
    let u = c as u32;
    u == 0x20 || (0x9 <= u && u <= 0xd) || u == 0x85 || u == 0xa0 || u == 0x1680 || (0x2000 <= u
        && u <= 0x200a) || u == 0x2028 || u == 0x2029 || u == 0x202f || u == 0x205f || u == 0x3000
}

/// The sequence without its leading whitespace.
pub open spec fn trim_start_spec(s: Seq<char>) -> Seq<char>
    decreases s.len(),
{
    if s.len() > 0 && is_space(s.first()) {
        trim_start_spec(s.drop_first())
    } else {
        s
    }
}

/// The sequence without its trailing whitespace.
pub open spec fn trim_end_spec(s: Seq<char>) -> Seq<char>
    decreases s.len(),
{
    if s.len() > 0 && is_space(s.last()) {
        trim_end_spec(s.drop_last())
    } else {
        s
    }
}

/// The sequence without leading and trailing whitespace.
pub open spec fn trim_spec(s: Seq<char>) -> Seq<char> {
    trim_end_spec(trim_start_spec(s))
}

/// Dropping whitespace from the front, then from the back, of a subrange:
/// the subrange `[a, b)` of `s` is what trimming leaves once every position
/// before `a` and from `b` on holds whitespace and the borders do not.
proof fn lemma_trim_start_subrange(s: Seq<char>, a: int)
    requires
        0 <= a <= s.len(),
        forall|j: int| 0 <= j < a ==> is_space(s[j]),
        a < s.len() ==> !is_space(s[a]),
    ensures
        trim_start_spec(s) == s.subrange(a, s.len() as int),
    decreases a,
{
    if a == 0 {
        if s.len() > 0 {
            assert(!is_space(s.first()));
        }
        assert(s.subrange(0, s.len() as int) =~= s);
    } else {
        assert(is_space(s.first()));
        let t = s.drop_first();
        assert forall|j: int| 0 <= j < a - 1 implies is_space(t[j]) by {
            assert(t[j] == s[j + 1]);
        }
        assert(a - 1 < t.len() ==> !is_space(t[a - 1]));
        lemma_trim_start_subrange(t, a - 1);
        assert(t.subrange(a - 1, t.len() as int) =~= s.subrange(a, s.len() as int));
    }
}

/// The matching fact for the back end.
proof fn lemma_trim_end_subrange(s: Seq<char>, b: int)
    requires
        0 <= b <= s.len(),
        forall|j: int| b <= j < s.len() ==> is_space(s[j]),
        b > 0 ==> !is_space(s[b - 1]),
    ensures
        trim_end_spec(s) == s.subrange(0, b),
    decreases s.len() - b,
{
    if b == s.len() {
        if s.len() > 0 {
            assert(!is_space(s.last()));
        }
        assert(s.subrange(0, s.len() as int) =~= s);
    } else {
        assert(is_space(s.last()));
        let t = s.drop_last();
        lemma_trim_end_subrange(t, b);
        assert(t.subrange(0, b) =~= s.subrange(0, b));
    }
}

/// The position of the first non-whitespace character, or the length.
fn scan_start(st: &str) -> (a: usize)
    ensures
        a <= st@.len(),
        forall|j: int| 0 <= j < a ==> is_space(st@[j]),
        a < st@.len() ==> !is_space(st@[a as int]),
{
    let n: usize = st.unicode_len();
    let mut a: usize = 0;
    while a < n
        invariant
            a <= n,
            n == st@.len(),
            forall|j: int| 0 <= j < a ==> is_space(st@[j]),
        decreases n - a,
    {
        let c = st.get_char(a);
        if !is_space_char(c) {
            return a;
        }
        a = a + 1;
    }
    a
}

/// The position after the last non-whitespace character at or after `a`.
fn scan_end(st: &str, a: usize) -> (b: usize)
    requires
        a <= st@.len(),
    ensures
        a <= b <= st@.len(),
        forall|j: int| b <= j < st@.len() ==> is_space(st@[j]),
        b > a ==> !is_space(st@[b - 1]),
{
    let n: usize = st.unicode_len();
    let mut b: usize = n;
    while b > a
        invariant
            a <= b <= n,
            n == st@.len(),
            forall|j: int| b <= j < n ==> is_space(st@[j]),
        decreases b,
    {
        let c = st.get_char(b - 1);
        if !is_space_char(c) {
            return b;
        }
        b = b - 1;
    }
    b
}

/// Strips leading and trailing whitespace, as the key file is cleaned
/// before its content becomes the shared secret.
pub fn trim_key(s: &String) -> (r: String)
    ensures
        r@ == trim_spec(s@),
{
    let st: &str = s.as_str();
    let n: usize = st.unicode_len();
    let a = scan_start(st);
    let b = scan_end(st, a);
    proof {
        lemma_trim_start_subrange(st@, a as int);
        if b > a {
            let t = st@.subrange(a as int, n as int);
            assert forall|j: int| b - a <= j < t.len() implies is_space(t[j]) by {
                assert(t[j] == st@[j + a]);
            }
            assert(!is_space(t[b - a - 1]));
            lemma_trim_end_subrange(t, b - a);
            assert(t.subrange(0, b - a) =~= st@.subrange(a as int, b as int));
        } else {
            let t = st@.subrange(a as int, n as int);
            assert forall|j: int| 0 <= j < t.len() implies is_space(t[j]) by {
                assert(t[j] == st@[j + a]);
            }
            lemma_trim_end_subrange(t, 0);
            assert(t.subrange(0, 0) =~= st@.subrange(a as int, b as int));
        }
    }
    let r: &str = st.substring_char(a, b);
    r.to_owned()
}

} // verus!
