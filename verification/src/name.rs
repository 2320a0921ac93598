//! Display names: what a tab is called on the roster, derived from the
//! optional token it connected with.
//!
//! The token is trimmed of Unicode white space, cut to at most
//! [`MAX_NAME_BYTES`] bytes of UTF-8 without splitting a character, and a
//! missing or empty result becomes `"guest"`.

use crate::token::{extract_token, token_of};
use vstd::prelude::*;
use vstd::utf8::{encode_scalar, encode_utf8};

verus! {

/// Largest length, in UTF-8 bytes, of a display name.
pub const MAX_NAME_BYTES: usize = 24;

/// The Unicode `White_Space` property (the set that `char::is_whitespace`
/// and `str::trim` use).
pub open spec fn is_white_space(c: char) -> bool {
    let v = c as u32;
    ||| 0x09 <= v <= 0x0D
    ||| v == 0x20
    ||| v == 0x85
    ||| v == 0xA0
    ||| v == 0x1680
    ||| 0x2000 <= v <= 0x200A
    ||| v == 0x2028
    ||| v == 0x2029
    ||| v == 0x202F
    ||| v == 0x205F
    ||| v == 0x3000
}

/// Number of bytes of the UTF-8 encoding of `c`.
pub open spec fn utf8_width(c: char) -> nat {
    let v = c as u32;
    if v < 0x80 {
        1
    } else if v < 0x800 {
        2
    } else if v < 0x10000 {
        3
    } else {
        4
    }
}

/// Number of bytes of the UTF-8 encoding of `s`.
pub open spec fn utf8_len(s: Seq<char>) -> nat
    decreases s.len(),
{
    if s.len() == 0 {
        0
    } else {
        utf8_width(s[0]) + utf8_len(s.drop_first())
    }
}

/// `s` without its leading white space.
pub open spec fn trim_start(s: Seq<char>) -> Seq<char>
    decreases s.len(),
{
    if s.len() > 0 && is_white_space(s[0]) {
        trim_start(s.drop_first())
    } else {
        s
    }
}

/// `s` without its trailing white space.
pub open spec fn trim_end(s: Seq<char>) -> Seq<char>
    decreases s.len(),
{
    if s.len() > 0 && is_white_space(s.last()) {
        trim_end(s.drop_last())
    } else {
        s
    }
}

/// `s` without leading and trailing white space.
pub open spec fn trim(s: Seq<char>) -> Seq<char> {
    trim_end(trim_start(s))
}

/// The longest prefix of `s` whose UTF-8 encoding fits in `budget` bytes.
pub open spec fn truncate_utf8(s: Seq<char>, budget: nat) -> Seq<char>
    decreases s.len(),
{
    if s.len() == 0 || utf8_width(s[0]) > budget {
        Seq::empty()
    } else {
        seq![s[0]] + truncate_utf8(s.drop_first(), (budget - utf8_width(s[0])) as nat)
    }
}

/// The fallback display name.
pub open spec fn guest_name() -> Seq<char> {
    seq!['g', 'u', 'e', 's', 't']
}

/// Display name derived from a token that was present.
pub open spec fn name_from_text(t: Seq<char>) -> Seq<char> {
    let cut = truncate_utf8(trim(t), MAX_NAME_BYTES as nat);
    if cut.len() == 0 {
        guest_name()
    } else {
        cut
    }
}

/// Display name derived from an optional token.
pub open spec fn name_from_token(token: Option<Seq<char>>) -> Seq<char> {
    match token {
        Some(t) => name_from_text(t),
        None => guest_name(),
    }
}

/// Whether `c` has the Unicode `White_Space` property.
pub fn is_white_space_char(c: char) -> (r: bool)
    ensures
        r == is_white_space(c),
{
    let v = c as u32;
    (0x09 <= v && v <= 0x0D) || v == 0x20 || v == 0x85 || v == 0xA0 || v == 0x1680 || (0x2000
        <= v && v <= 0x200A) || v == 0x2028 || v == 0x2029 || v == 0x202F || v == 0x205F || v
        == 0x3000
}

/// Number of bytes of the UTF-8 encoding of `c`.
pub fn utf8_width_of(c: char) -> (w: usize)
    ensures
        w == utf8_width(c),
        w == encode_scalar(c as u32).len(),
{
    let v = c as u32;
    if v < 0x80 {
        1
    } else if v < 0x800 {
        2
    } else if v < 0x10000 {
        3
    } else {
        4
    }
}

proof fn lemma_trim_start_skip(s: Seq<char>, i: int)
    requires
        0 <= i <= s.len(),
        forall|j: int| 0 <= j < i ==> is_white_space(#[trigger] s[j]),
    ensures
        trim_start(s) == trim_start(s.skip(i)),
    decreases i,
{
    if i > 0 {
        assert(s.drop_first().skip(i - 1) =~= s.skip(i));
        lemma_trim_start_skip(s.drop_first(), i - 1);
    } else {
        assert(s.skip(0) =~= s);
    }
}

proof fn lemma_trim_end_take(s: Seq<char>, j: int)
    requires
        0 <= j <= s.len(),
        forall|k: int| j <= k < s.len() ==> is_white_space(#[trigger] s[k]),
    ensures
        trim_end(s) == trim_end(s.take(j)),
    decreases s.len() - j,
{
    if j < s.len() {
        assert(s.drop_last().take(j) =~= s.take(j));
        lemma_trim_end_take(s.drop_last(), j);
    } else {
        assert(s.take(j) =~= s);
    }
}

proof fn lemma_truncate_step(u: Seq<char>, i: int, budget: nat)
    requires
        0 <= i < u.len(),
        utf8_width(u[i]) <= budget,
    ensures
        truncate_utf8(u.skip(i), budget) == seq![u[i]] + truncate_utf8(
            u.skip(i + 1),
            (budget - utf8_width(u[i])) as nat,
        ),
{
    assert(u.skip(i).drop_first() =~= u.skip(i + 1));
    assert(u.skip(i)[0] == u[i]);
}

/// Display name for a token that was present.
pub fn name_from_str(t: &str) -> (name: String)
    ensures
        name@ == name_from_text(t@),
{
    broadcast use vstd::string::group_string_axioms;

    let mut cs: Vec<char> = Vec::new();
    for c in it: t.chars()
        invariant
            it.seq() == t@,
            cs@ == t@.take(it.index()),
    {
        assert(t@.take(it.index()).push(c) =~= t@.take(it.index() + 1));
        cs.push(c);
    }
    assert(cs@ =~= t@);
    let n = cs.len();
    let mut a: usize = 0;
    while a < n && is_white_space_char(cs[a])
        invariant
            a <= n == cs@.len(),
            forall|j: int| 0 <= j < a ==> is_white_space(#[trigger] cs@[j]),
        decreases n - a,
    {
        a = a + 1;
    }
    let mut b: usize = n;
    while b > a && is_white_space_char(cs[b - 1])
        invariant
            a <= b <= n == cs@.len(),
            forall|k: int| b <= k < n ==> is_white_space(#[trigger] cs@[k]),
        decreases b - a,
    {
        b = b - 1;
    }
    let ghost u = cs@.subrange(a as int, b as int);
    proof {
        lemma_trim_start_skip(cs@, a as int);
        let v = cs@.skip(a as int);
        assert(trim_start(v) == v);
        lemma_trim_end_take(v, (b - a) as int);
        assert(v.take((b - a) as int) =~= u);
        assert(trim_end(u) == u);
        assert(trim(cs@) == u);
    }
    let mut e: usize = a;
    let mut budget: usize = MAX_NAME_BYTES;
    assert(u.skip(0) =~= u);
    assert(u.take(0) + u =~= u);
    while e < b && utf8_width_of(cs[e]) <= budget
        invariant
            a <= e <= b <= n == cs@.len(),
            budget <= MAX_NAME_BYTES,
            u == cs@.subrange(a as int, b as int),
            truncate_utf8(u, MAX_NAME_BYTES as nat) == u.take(e - a) + truncate_utf8(
                u.skip(e - a),
                budget as nat,
            ),
        decreases b - e,
    {
        proof {
            lemma_truncate_step(u, e - a, budget as nat);
            assert(u[e - a] == cs@[e as int]);
            assert(u.take(e - a).push(u[e - a]) =~= u.take(e - a + 1));
            assert(u.take(e - a) + (seq![u[e - a]] + truncate_utf8(
                u.skip(e - a + 1),
                (budget - utf8_width(u[e - a])) as nat,
            )) =~= u.take(e - a + 1) + truncate_utf8(
                u.skip(e - a + 1),
                (budget - utf8_width(u[e - a])) as nat,
            ));
        }
        budget = budget - utf8_width_of(cs[e]);
        e = e + 1;
    }
    proof {
        if e < b {
            assert(u.skip(e - a)[0] == cs@[e as int]);
        }
        assert(truncate_utf8(u.skip(e - a), budget as nat) =~= Seq::<char>::empty());
        assert(u.take(e - a) + Seq::<char>::empty() =~= u.take(e - a));
        assert(truncate_utf8(trim(t@), MAX_NAME_BYTES as nat) == u.take(e - a));
    }
    if e == a {
        let g = String::from_str("guest");
        proof {
            reveal_strlit("guest");
            assert(g@ =~= guest_name());
        }
        g
    } else {
        let r = String::from_str(t.substring_char(a, e));
        assert(t@.subrange(a as int, e as int) =~= u.take(e - a));
        r
    }
}

/// Display name for an optional token: absent, empty or blank tokens give
/// `"guest"`.
pub fn name_for_token(token: Option<&str>) -> (name: String)
    ensures
        name@ == name_from_token(
            match token {
                Some(t) => Some(t@),
                None => None,
            },
        ),
{
    match token {
        Some(t) => name_from_str(t),
        None => {
            let g = String::from_str("guest");
            proof {
                reveal_strlit("guest");
                assert(g@ =~= guest_name());
            }
            g
        },
    }
}

/// The display name of a connecting tab: the token that `ws_kit`'s default
/// extractor finds given the `Authorization` header value and the raw query
/// string (none counts as empty), made into a name.
pub fn display_name(auth: Option<&str>, query: Option<&str>) -> (name: String)
    ensures
        name@ == name_from_token(
            token_of(
                match auth {
                    Some(a) => Some(a@),
                    None => None,
                },
                match query {
                    Some(q) => q@,
                    None => Seq::empty(),
                },
            ),
        ),
{
    let q = match query {
        Some(q) => q,
        None => "",
    };
    proof {
        reveal_strlit("");
        assert(""@ =~= Seq::<char>::empty());
    }
    let token = extract_token(auth, q);
    match &token {
        Some(t) => name_for_token(Some(t.as_str())),
        None => name_for_token(None),
    }
}

proof fn lemma_truncate_shape(s: Seq<char>, b: nat)
    ensures
        truncate_utf8(s, b).len() <= s.len(),
        truncate_utf8(s, b) == s.take(truncate_utf8(s, b).len() as int),
        utf8_len(truncate_utf8(s, b)) <= b,
        truncate_utf8(s, b).len() < s.len() ==> utf8_len(truncate_utf8(s, b)) + utf8_width(
            s[truncate_utf8(s, b).len() as int],
        ) > b,
    decreases s.len(),
{
    let r = truncate_utf8(s, b);
    if s.len() == 0 || utf8_width(s[0]) > b {
        assert(r.len() == 0);
        assert(s.take(0) =~= r);
    } else {
        let w = utf8_width(s[0]);
        let r2 = truncate_utf8(s.drop_first(), (b - w) as nat);
        lemma_truncate_shape(s.drop_first(), (b - w) as nat);
        assert(r == seq![s[0]] + r2);
        assert(r.drop_first() =~= r2);
        assert(r[0] == s[0]);
        assert(utf8_len(r) == w + utf8_len(r2));
        assert(s.take(r.len() as int) =~= seq![s[0]] + s.drop_first().take(r2.len() as int));
        if r.len() < s.len() {
            assert(s[r.len() as int] == s.drop_first()[r2.len() as int]);
        }
    }
}

proof fn lemma_trim_start_shape(s: Seq<char>)
    ensures
        exists|i: int| 0 <= i <= s.len() && trim_start(s) == #[trigger] s.skip(i),
        trim_start(s).len() > 0 ==> !is_white_space(trim_start(s)[0]),
    decreases s.len(),
{
    if s.len() > 0 && is_white_space(s[0]) {
        lemma_trim_start_shape(s.drop_first());
        let i = choose|i: int|
            0 <= i <= s.drop_first().len() && trim_start(s.drop_first())
                == #[trigger] s.drop_first().skip(i);
        assert(s.drop_first().skip(i) =~= s.skip(i + 1));
    } else {
        assert(s.skip(0) =~= s);
    }
}

proof fn lemma_trim_end_shape(s: Seq<char>)
    ensures
        trim_end(s).len() <= s.len(),
        trim_end(s) == s.take(trim_end(s).len() as int),
        trim_end(s).len() > 0 ==> !is_white_space(trim_end(s).last()),
    decreases s.len(),
{
    if s.len() > 0 && is_white_space(s.last()) {
        lemma_trim_end_shape(s.drop_last());
        let r = trim_end(s.drop_last());
        assert(s.drop_last().take(r.len() as int) =~= s.take(r.len() as int));
    } else {
        assert(s.take(s.len() as int) =~= s);
    }
}

/// The laws of display names: a name is never empty, fits in
/// [`MAX_NAME_BYTES`] bytes of UTF-8 and does not begin with white space; an
/// absent, empty or blank token gives `"guest"`; any other token gives the
/// longest prefix of the trimmed token that fits, cut at a character
/// boundary.
pub proof fn lemma_display_name_laws(token: Option<Seq<char>>)
    ensures
        name_from_token(token).len() > 0,
        utf8_len(name_from_token(token)) <= MAX_NAME_BYTES,
        !is_white_space(name_from_token(token)[0]),
        token is None ==> name_from_token(token) == guest_name(),
        token matches Some(t) ==> (trim(t).len() == 0 ==> name_from_token(token) == guest_name()),
        token matches Some(t) ==> (trim(t).len() > 0 ==> {
            let name = name_from_token(token);
            &&& name == trim(t).take(name.len() as int)
            &&& name.len() < trim(t).len() ==> utf8_len(name) + utf8_width(trim(t)[name.len() as int])
                > MAX_NAME_BYTES
        }),
{
    assert(utf8_len(guest_name()) == 5) by {
        reveal_with_fuel(utf8_len, 6);
    }
    assert(!is_white_space(guest_name()[0]));
    if let Some(t) = token {
        let ts = trim_start(t);
        lemma_trim_start_shape(t);
        lemma_trim_end_shape(ts);
        let tr = trim(t);
        lemma_truncate_shape(tr, MAX_NAME_BYTES as nat);
        let cut = truncate_utf8(tr, MAX_NAME_BYTES as nat);
        if tr.len() > 0 {
            assert(tr[0] == ts[0]);
            assert(utf8_width(tr[0]) <= 4);
            assert(cut.len() > 0) by {
                if cut.len() == 0 {
                    assert(utf8_len(cut) == 0);
                }
            }
            assert(cut[0] == tr[0]);
        }
    }
}

/// A character's width is the length of its UTF-8 encoding.
pub proof fn lemma_utf8_width_is_encoding_length(c: char)
    ensures
        utf8_width(c) == encode_scalar(c as u32).len(),
        (c as u32) < 0x80 ==> utf8_width(c) == 1,
        0x80 <= (c as u32) < 0x800 ==> utf8_width(c) == 2,
        0x800 <= (c as u32) < 0x10000 ==> utf8_width(c) == 3,
        0x10000 <= (c as u32) ==> utf8_width(c) == 4,
{
}

/// The byte length counted for a text is the length of its UTF-8 encoding
/// (what `str::len` returns).
pub proof fn lemma_utf8_len_is_encoding_length(s: Seq<char>)
    ensures
        utf8_len(s) == encode_utf8(s).len(),
    decreases s.len(),
{
    if s.len() > 0 {
        lemma_utf8_len_is_encoding_length(s.drop_first());
        lemma_utf8_width_is_encoding_length(s[0]);
    }
}

/// Display names measured in real UTF-8 bytes: a name's encoding takes at
/// most [`MAX_NAME_BYTES`] bytes, and a name cut from a longer token is the
/// longest prefix of the trimmed token whose encoding fits: one more
/// character would not.
pub proof fn lemma_display_name_bytes(token: Option<Seq<char>>)
    ensures
        encode_utf8(name_from_token(token)).len() <= MAX_NAME_BYTES,
        token matches Some(t) ==> (trim(t).len() > 0 ==> {
            let name = name_from_token(token);
            &&& name == trim(t).take(name.len() as int)
            &&& name.len() < trim(t).len() ==> encode_utf8(trim(t).take(name.len() + 1int)).len()
                > MAX_NAME_BYTES
        }),
{
    lemma_display_name_laws(token);
    let name = name_from_token(token);
    lemma_utf8_len_is_encoding_length(name);
    if let Some(t) = token {
        if trim(t).len() > 0 && name.len() < trim(t).len() {
            let longer = trim(t).take(name.len() + 1int);
            lemma_utf8_len_is_encoding_length(longer);
            lemma_utf8_len_append(name, trim(t)[name.len() as int]);
            assert(longer =~= name.push(trim(t)[name.len() as int]));
        }
    }
}

proof fn lemma_utf8_len_append(s: Seq<char>, c: char)
    ensures
        utf8_len(s.push(c)) == utf8_len(s) + utf8_width(c),
    decreases s.len(),
{
    if s.len() == 0 {
        assert(s.push(c).drop_first() =~= Seq::<char>::empty());
        assert(s.push(c)[0] == c);
        assert(utf8_len(Seq::<char>::empty()) == 0);
        assert(utf8_len(s) == 0);
    } else {
        lemma_utf8_len_append(s.drop_first(), c);
        assert(s.push(c).drop_first() =~= s.drop_first().push(c));
        assert(s.push(c)[0] == s[0]);
    }
}

} // verus!
