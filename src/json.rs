use vstd::prelude::*;

verus! {

pub const QUOTE: u8 = 34;
pub const BACKSLASH: u8 = 92;
pub const COLON: u8 = 58;
pub const COMMA: u8 = 44;
pub const OPEN_BRACE: u8 = 123;
pub const CLOSE_BRACE: u8 = 125;
pub const OPEN_BRACKET: u8 = 91;
pub const CLOSE_BRACKET: u8 = 93;

/// A byte that may stand in a bare scalar: a number, `true`, `false`, `null`.
pub open spec fn is_scalar_byte(b: u8) -> bool {
    (48 <= b <= 57) || (65 <= b <= 90) || (97 <= b <= 122) || b == 43 || b == 45 || b == 46
}

/// A literal: `true`.
pub open spec fn text_true() -> Seq<u8> {
    seq![116, 114, 117, 101]
}

fn text_true_bytes() -> (r: Vec<u8>)
    ensures
        r@ == text_true(),
{
    let r: Vec<u8> = vec![116, 114, 117, 101];
    assert(r@ =~= text_true());
    r
}

/// A literal: `false`.
pub open spec fn text_false() -> Seq<u8> {
    seq![102, 97, 108, 115, 101]
}

fn text_false_bytes() -> (r: Vec<u8>)
    ensures
        r@ == text_false(),
{
    let r: Vec<u8> = vec![102, 97, 108, 115, 101];
    assert(r@ =~= text_false());
    r
}

/// A literal: `null`.
pub open spec fn text_null() -> Seq<u8> {
    seq![110, 117, 108, 108]
}

fn text_null_bytes() -> (r: Vec<u8>)
    ensures
        r@ == text_null(),
{
    let r: Vec<u8> = vec![110, 117, 108, 108];
    assert(r@ =~= text_null());
    r
}

pub open spec fn is_digit(b: u8) -> bool {
    48 <= b <= 57
}

/// The first index at or after `i` that holds no decimal digit.
pub open spec fn digits_end(t: Seq<u8>, i: int) -> int
    decreases t.len() - i,
{
    if 0 <= i < t.len() && is_digit(t[i]) {
        digits_end(t, i + 1)
    } else {
        i
    }
}

/// The end of the integer part of a number that starts at `i`: a lone `0`
/// or digits that do not start with `0`.
pub open spec fn int_part_end(t: Seq<u8>, i: int) -> Option<int> {
    if 0 <= i < t.len() && t[i] == 48 {
        Some(i + 1)
    } else if digits_end(t, i) > i {
        Some(digits_end(t, i))
    } else {
        None
    }
}

/// The end of the optional fraction `.digits` at `i`.
pub open spec fn frac_end(t: Seq<u8>, i: int) -> Option<int> {
    if 0 <= i < t.len() && t[i] == 46 {
        if digits_end(t, i + 1) > i + 1 {
            Some(digits_end(t, i + 1))
        } else {
            None
        }
    } else {
        Some(i)
    }
}

/// The end of the optional exponent `e[+-]digits` at `i`.
pub open spec fn exp_end(t: Seq<u8>, i: int) -> Option<int> {
    if 0 <= i < t.len() && (t[i] == 101 || t[i] == 69) {
        let j = if i + 1 < t.len() && (t[i + 1] == 43 || t[i + 1] == 45) {
            i + 2
        } else {
            i + 1
        };
        if digits_end(t, j) > j {
            Some(digits_end(t, j))
        } else {
            None
        }
    } else {
        Some(i)
    }
}

/// The text of a JSON number.
pub open spec fn is_number_text(t: Seq<u8>) -> bool {
    let i0: int = if t.len() > 0 && t[0] == 45 {
        1
    } else {
        0
    };
    match int_part_end(t, i0) {
        Some(a) => match frac_end(t, a) {
            Some(b) => match exp_end(t, b) {
                Some(c) => c == t.len(),
                None => false,
            },
            None => false,
        },
        None => false,
    }
}

/// The text of a JSON number, `true`, `false` or `null`.
pub open spec fn is_scalar_text(t: Seq<u8>) -> bool {
    t == text_true() || t == text_false() || t == text_null() || is_number_text(t)
}

/// The first index at or after `i` that holds no scalar byte.
pub open spec fn scalar_end(s: Seq<u8>, i: int) -> int
    decreases s.len() - i,
{
    if 0 <= i < s.len() && is_scalar_byte(s[i]) {
        scalar_end(s, i + 1)
    } else {
        i
    }
}

/// The index of the first unescaped quote at or after `i`, where `esc` says
/// that the byte at `i` is escaped.
pub open spec fn string_close(s: Seq<u8>, i: int, esc: bool) -> Option<int>
    decreases s.len() - i,
{
    if i < 0 || i >= s.len() {
        None
    } else if esc {
        string_close(s, i + 1, false)
    } else if s[i] == BACKSLASH {
        string_close(s, i + 1, true)
    } else if s[i] == QUOTE {
        Some(i)
    } else {
        string_close(s, i + 1, false)
    }
}

/// Scans a string, array or object from `i`, where `depth` brackets are open
/// and `in_str` says whether a string is open. The result is the index just
/// past the value; brackets are counted, strings skipped.
pub open spec fn nested_end(s: Seq<u8>, i: int, depth: nat, in_str: bool) -> Option<int>
    decreases s.len() - i,
{
    if i < 0 || i >= s.len() {
        None
    } else if in_str {
        match string_close(s, i, false) {
            Some(c) => if c < i || c >= s.len() {
                None
            } else if depth == 0 {
                Some(c + 1)
            } else {
                nested_end(s, c + 1, depth, false)
            },
            None => None,
        }
    } else {
        let b = s[i];
        if b == QUOTE {
            nested_end(s, i + 1, depth, true)
        } else if b == OPEN_BRACE || b == OPEN_BRACKET {
            nested_end(s, i + 1, depth + 1, false)
        } else if b == CLOSE_BRACE || b == CLOSE_BRACKET {
            if depth == 0 {
                None
            } else if depth == 1 {
                Some(i + 1)
            } else {
                nested_end(s, i + 1, (depth - 1) as nat, false)
            }
        } else if depth == 0 {
            None
        } else {
            nested_end(s, i + 1, depth, false)
        }
    }
}

/// The index just past the value that starts at `i`: a bare scalar, a
/// string, or a bracketed array or object.
pub open spec fn value_end(s: Seq<u8>, i: int) -> Option<int> {
    if i < 0 || i >= s.len() {
        None
    } else if is_scalar_byte(s[i]) {
        if is_scalar_text(s.subrange(i, scalar_end(s, i))) {
            Some(scalar_end(s, i))
        } else {
            None
        }
    } else if s[i] == QUOTE || s[i] == OPEN_BRACE || s[i] == OPEN_BRACKET {
        nested_end(s, i, 0, false)
    } else {
        None
    }
}

/// An executable index and a mathematical one name the same position.
pub open spec fn same_index(r: Option<usize>, o: Option<int>) -> bool {
    match r {
        Some(x) => o == Some(x as int),
        None => o is None,
    }
}

proof fn lemma_scalar_end(s: Seq<u8>, i: int)
    requires
        0 <= i,
    ensures
        i <= scalar_end(s, i) <= if i <= s.len() { s.len() as int } else { i },
    decreases s.len() - i,
{
    if 0 <= i < s.len() && is_scalar_byte(s[i]) {
        lemma_scalar_end(s, i + 1);
    }
}

proof fn lemma_string_close(s: Seq<u8>, i: int, esc: bool)
    ensures
        string_close(s, i, esc) matches Some(c) ==> i <= c < s.len() && s[c] == QUOTE,
    decreases s.len() - i,
{
    if 0 <= i < s.len() {
        lemma_string_close(s, i + 1, false);
        lemma_string_close(s, i + 1, true);
    }
}

proof fn lemma_nested_end(s: Seq<u8>, i: int, depth: nat, in_str: bool)
    ensures
        nested_end(s, i, depth, in_str) matches Some(e) ==> i < e <= s.len(),
    decreases s.len() - i,
{
    if 0 <= i < s.len() {
        lemma_string_close(s, i, false);
        if let Some(c) = string_close(s, i, false) {
            lemma_nested_end(s, c + 1, depth, false);
        }
        lemma_nested_end(s, i + 1, depth, true);
        lemma_nested_end(s, i + 1, depth + 1, false);
        lemma_nested_end(s, i + 1, depth, false);
        if depth > 1 {
            lemma_nested_end(s, i + 1, (depth - 1) as nat, false);
        }
    }
}

pub proof fn lemma_value_end(s: Seq<u8>, i: int)
    ensures
        value_end(s, i) matches Some(e) ==> 0 <= i < e <= s.len(),
{
    if 0 <= i < s.len() {
        lemma_scalar_end(s, i + 1);
        lemma_nested_end(s, i, 0, false);
    }
}

fn string_close_exec(s: &[u8], start: usize) -> (r: Option<usize>)
    ensures
        same_index(r, string_close(s@, start as int, false)),
{
    let mut i: usize = start;
    let mut esc: bool = false;
    while i < s.len()
        invariant
            start <= i,
            string_close(s@, start as int, false) == string_close(s@, i as int, esc),
        decreases s.len() - i,
    {
        if esc {
            esc = false;
        } else if s[i] == BACKSLASH {
            esc = true;
        } else if s[i] == QUOTE {
            return Some(i);
        }
        i = i + 1;
    }
    None
}

fn scalar_end_exec(s: &[u8], start: usize) -> (r: usize)
    requires
        start <= s@.len(),
    ensures
        r == scalar_end(s@, start as int),
{
    let mut i: usize = start;
    while i < s.len() && is_scalar(s[i])
        invariant
            start <= i <= s@.len(),
            scalar_end(s@, start as int) == scalar_end(s@, i as int),
        decreases s.len() - i,
    {
        i = i + 1;
    }
    i
}

fn digits_end_exec(t: &[u8], start: usize) -> (r: usize)
    requires
        start <= t@.len(),
    ensures
        r == digits_end(t@, start as int),
        start <= r <= t@.len(),
{
    let mut i: usize = start;
    while i < t.len() && 48 <= t[i] && t[i] <= 57
        invariant
            start <= i <= t@.len(),
            digits_end(t@, start as int) == digits_end(t@, i as int),
        decreases t.len() - i,
    {
        i = i + 1;
    }
    i
}

fn int_part_end_exec(t: &[u8], i: usize) -> (r: Option<usize>)
    requires
        i <= t@.len(),
    ensures
        same_index(r, int_part_end(t@, i as int)),
        r matches Some(a) ==> a <= t@.len(),
{
    if i < t.len() && t[i] == 48 {
        Some(i + 1)
    } else {
        let d = digits_end_exec(t, i);
        if d > i {
            Some(d)
        } else {
            None
        }
    }
}

fn frac_end_exec(t: &[u8], i: usize) -> (r: Option<usize>)
    requires
        i <= t@.len(),
    ensures
        same_index(r, frac_end(t@, i as int)),
        r matches Some(a) ==> a <= t@.len(),
{
    if i < t.len() && t[i] == 46 {
        let d = digits_end_exec(t, i + 1);
        if d > i + 1 {
            Some(d)
        } else {
            None
        }
    } else {
        Some(i)
    }
}

fn exp_end_exec(t: &[u8], i: usize) -> (r: Option<usize>)
    requires
        i <= t@.len(),
    ensures
        same_index(r, exp_end(t@, i as int)),
{
    if i < t.len() && (t[i] == 101 || t[i] == 69) {
        let j = if i + 1 < t.len() && (t[i + 1] == 43 || t[i + 1] == 45) {
            i + 2
        } else {
            i + 1
        };
        let d = digits_end_exec(t, j);
        if d > j {
            Some(d)
        } else {
            None
        }
    } else {
        Some(i)
    }
}

/// Whether `t` is the text of a JSON number.
pub fn number_text(t: &[u8]) -> (r: bool)
    ensures
        r == is_number_text(t@),
{
    let i0: usize = if t.len() > 0 && t[0] == 45 {
        1
    } else {
        0
    };
    match int_part_end_exec(t, i0) {
        Some(a) => match frac_end_exec(t, a) {
            Some(b) => match exp_end_exec(t, b) {
                Some(c) => c == t.len(),
                None => false,
            },
            None => false,
        },
        None => false,
    }
}

/// Whether `t` is the text of a JSON number, `true`, `false` or `null`.
pub fn scalar_text(t: &[u8]) -> (r: bool)
    ensures
        r == is_scalar_text(t@),
{
    bytes_eq(t, text_true_bytes().as_slice()) || bytes_eq(t, text_false_bytes().as_slice())
        || bytes_eq(t, text_null_bytes().as_slice()) || number_text(t)
}

fn is_scalar(b: u8) -> (r: bool)
    ensures
        r == is_scalar_byte(b),
{
    (48 <= b && b <= 57) || (65 <= b && b <= 90) || (97 <= b && b <= 122) || b == 43 || b == 45
        || b == 46
}

fn nested_end_exec(s: &[u8], start: usize) -> (r: Option<usize>)
    requires
        start <= s@.len(),
    ensures
        same_index(r, nested_end(s@, start as int, 0, false)),
{
    let mut i: usize = start;
    let mut depth: usize = 0;
    while i < s.len()
        invariant
            start <= i <= s@.len(),
            depth <= i,
            nested_end(s@, start as int, 0, false) == nested_end(s@, i as int, depth as nat, false),
        decreases s.len() - i,
    {
        let b = s[i];
        if b == QUOTE {
            proof {
                lemma_string_close(s@, i + 1, false);
                assert(nested_end(s@, i as int, depth as nat, false) == nested_end(
                    s@,
                    i + 1,
                    depth as nat,
                    true,
                ));
                if i + 1 < s@.len() {
                    assert(nested_end(s@, i + 1, depth as nat, true) == match string_close(
                        s@,
                        i + 1,
                        false,
                    ) {
                        Some(c) => if c < i + 1 || c >= s@.len() {
                            None
                        } else if depth == 0 {
                            Some(c + 1)
                        } else {
                            nested_end(s@, c + 1, depth as nat, false)
                        },
                        None => None,
                    });
                }
            }
            match string_close_exec(s, i + 1) {
                Some(c) => {
                    if depth == 0 {
                        return Some(c + 1);
                    }
                    i = c + 1;
                },
                None => {
                    return None;
                },
            }
        } else if b == OPEN_BRACE || b == OPEN_BRACKET {
            depth = depth + 1;
            i = i + 1;
        } else if b == CLOSE_BRACE || b == CLOSE_BRACKET {
            if depth == 0 {
                return None;
            } else if depth == 1 {
                return Some(i + 1);
            }
            depth = depth - 1;
            i = i + 1;
        } else if depth == 0 {
            return None;
        } else {
            i = i + 1;
        }
    }
    None
}

/// The index just past the value that starts at `start`.
pub fn find_value_end(s: &[u8], start: usize) -> (r: Option<usize>)
    ensures
        same_index(r, value_end(s@, start as int)),
{
    if start >= s.len() {
        None
    } else if is_scalar(s[start]) {
        let e = scalar_end_exec(s, start);
        proof {
            lemma_scalar_end(s@, start as int);
        }
        let t = copy_range(s, start, e);
        if scalar_text(t.as_slice()) {
            Some(e)
        } else {
            None
        }
    } else if s[start] == QUOTE || s[start] == OPEN_BRACE || s[start] == OPEN_BRACKET {
        nested_end_exec(s, start)
    } else {
        None
    }
}

/// A raw member of an object: the text of its key between the quotes, and
/// the text of its value.
pub type RawMember = (Seq<u8>, Seq<u8>);

/// The members of an object text from index `i`, just after `{` or `,`, to
/// the closing `}` that ends the text. No white space is allowed between
/// tokens.
pub open spec fn members_from(s: Seq<u8>, i: int) -> Option<Seq<RawMember>>
    decreases s.len() - i,
{
    if i < 0 || i >= s.len() || s[i] != QUOTE {
        None
    } else {
        match string_close(s, i + 1, false) {
            None => None,
            Some(c) => if c <= i || c + 1 >= s.len() || s[c + 1] != COLON {
                None
            } else {
                match value_end(s, c + 2) {
                    None => None,
                    Some(e) => if e <= c + 2 || e >= s.len() {
                        None
                    } else {
                        let m = (s.subrange(i + 1, c), s.subrange(c + 2, e));
                        if s[e] == CLOSE_BRACE && e + 1 == s.len() {
                            Some(seq![m])
                        } else if s[e] == COMMA {
                            match members_from(s, e + 1) {
                                Some(rest) => Some(seq![m] + rest),
                                None => None,
                            }
                        } else {
                            None
                        }
                    },
                }
            },
        }
    }
}

/// The members of the object that the whole text `s` is, in order.
pub open spec fn parse_object(s: Seq<u8>) -> Option<Seq<RawMember>> {
    if s.len() == 2 && s[0] == OPEN_BRACE && s[1] == CLOSE_BRACE {
        Some(seq![])
    } else if s.len() > 2 && s[0] == OPEN_BRACE {
        members_from(s, 1)
    } else {
        None
    }
}

pub open spec fn member_text(m: RawMember) -> Seq<u8> {
    seq![QUOTE] + m.0 + seq![QUOTE, COLON] + m.1
}

pub open spec fn members_text(ms: Seq<RawMember>) -> Seq<u8>
    decreases ms.len(),
{
    if ms.len() == 0 {
        seq![]
    } else if ms.len() == 1 {
        member_text(ms[0])
    } else {
        member_text(ms[0]) + seq![COMMA] + members_text(ms.drop_first())
    }
}

/// The compact text of an object with the members `ms`, in order.
pub open spec fn object_text(ms: Seq<RawMember>) -> Seq<u8> {
    seq![OPEN_BRACE] + members_text(ms) + seq![CLOSE_BRACE]
}

/// A member of an object, as raw text.
#[derive(Debug)]
pub struct Member {
    /// The key's text between its quotes, escapes kept.
    pub key: Vec<u8>,
    /// The value's text.
    pub value: Vec<u8>,
}

pub open spec fn member_views(ms: Seq<Member>) -> Seq<RawMember> {
    ms.map_values(|m: Member| (m.key@, m.value@))
}

pub open spec fn prefixed(acc: Seq<RawMember>, rest: Option<Seq<RawMember>>) -> Option<Seq<RawMember>> {
    match rest {
        Some(r) => Some(acc + r),
        None => None,
    }
}

/// Appends `b` to `out`.
pub fn append(out: &mut Vec<u8>, b: &[u8])
    ensures
        final(out)@ == old(out)@ + b@,
{
    let mut i: usize = 0;
    while i < b.len()
        invariant
            i <= b@.len(),
            out@ == old(out)@ + b@.subrange(0, i as int),
        decreases b.len() - i,
    {
        out.push(b[i]);
        i = i + 1;
        proof {
            assert(b@.subrange(0, i as int) =~= b@.subrange(0, i - 1).push(b@[i - 1]));
        }
    }
    proof {
        assert(b@.subrange(0, b@.len() as int) =~= b@);
    }
}

/// The bytes of `s` from `lo` up to `hi`.
pub fn copy_range(s: &[u8], lo: usize, hi: usize) -> (r: Vec<u8>)
    requires
        lo <= hi <= s@.len(),
    ensures
        r@ == s@.subrange(lo as int, hi as int),
{
    let mut r: Vec<u8> = Vec::new();
    let mut i: usize = lo;
    while i < hi
        invariant
            lo <= i <= hi <= s@.len(),
            r@ == s@.subrange(lo as int, i as int),
        decreases hi - i,
    {
        r.push(s[i]);
        i = i + 1;
        proof {
            assert(s@.subrange(lo as int, i as int) =~= s@.subrange(lo as int, i - 1).push(s@[i - 1]));
        }
    }
    r
}

/// Splits the text of an object into its members, in order.
pub fn split_object(s: &[u8]) -> (r: Option<Vec<Member>>)
    ensures
        match r {
            Some(v) => parse_object(s@) == Some(member_views(v@)),
            None => parse_object(s@) is None,
        },
{
    let n = s.len();
    if n == 2 && s[0] == OPEN_BRACE && s[1] == CLOSE_BRACE {
        proof {
            assert(member_views(Seq::<Member>::empty()) =~= seq![]);
        }
        return Some(Vec::new());
    }
    if n <= 2 || s[0] != OPEN_BRACE {
        return None;
    }
    let mut acc: Vec<Member> = Vec::new();
    let mut i: usize = 1;
    proof {
        assert(member_views(acc@) =~= seq![]);
        assert(prefixed(seq![], members_from(s@, 1)) == members_from(s@, 1));
    }
    loop
        invariant
            1 <= i <= n,
            n == s@.len(),
            parse_object(s@) == prefixed(member_views(acc@), members_from(s@, i as int)),
        decreases n - i,
    {
        if i >= n || s[i] != QUOTE {
            return None;
        }
        proof {
            lemma_string_close(s@, i + 1, false);
        }
        let c = match string_close_exec(s, i + 1) {
            Some(c) => c,
            None => {
                return None;
            },
        };
        if c + 1 >= n || s[c + 1] != COLON {
            return None;
        }
        proof {
            lemma_value_end(s@, c + 2);
        }
        let e = match find_value_end(s, c + 2) {
            Some(e) => e,
            None => {
                return None;
            },
        };
        if e >= n {
            return None;
        }
        let m = Member { key: copy_range(s, i + 1, c), value: copy_range(s, c + 2, e) };
        let ghost mv = (s@.subrange(i + 1, c as int), s@.subrange(c + 2, e as int));
        let ghost before = member_views(acc@);
        if s[e] == CLOSE_BRACE && e + 1 == n {
            acc.push(m);
            proof {
                assert(member_views(acc@) =~= before + seq![mv]);
            }
            return Some(acc);
        } else if s[e] == COMMA {
            acc.push(m);
            proof {
                assert(member_views(acc@) =~= before + seq![mv]);
                match members_from(s@, e + 1) {
                    Some(rest) => {
                        assert(before + (seq![mv] + rest) =~= (before + seq![mv]) + rest);
                    },
                    None => {},
                }
            }
            i = e + 1;
        } else {
            return None;
        }
    }
}

proof fn lemma_members_text_push(ms: Seq<RawMember>, m: RawMember)
    ensures
        members_text(ms.push(m)) == if ms.len() == 0 {
            member_text(m)
        } else {
            members_text(ms) + seq![COMMA] + member_text(m)
        },
    decreases ms.len(),
{
    if ms.len() > 0 {
        lemma_members_text_push(ms.drop_first(), m);
        assert(ms.push(m).drop_first() =~= ms.drop_first().push(m));
        if ms.len() > 1 {
            assert(members_text(ms.push(m)) =~= members_text(ms) + seq![COMMA] + member_text(m));
        }
    }
}

/// Appends the compact text of an object with the members `ms` to `out`.
pub fn write_object(ms: &Vec<Member>, out: &mut Vec<u8>)
    ensures
        final(out)@ == old(out)@ + object_text(member_views(ms@)),
{
    out.push(OPEN_BRACE);
    let mut k: usize = 0;
    while k < ms.len()
        invariant
            k <= ms@.len(),
            out@ == old(out)@ + seq![OPEN_BRACE] + members_text(member_views(ms@.subrange(0, k as int))),
        decreases ms.len() - k,
    {
        let ghost done = member_views(ms@.subrange(0, k as int));
        let m = &ms[k];
        if k > 0 {
            out.push(COMMA);
        }
        out.push(QUOTE);
        append(out, m.key.as_slice());
        out.push(QUOTE);
        out.push(COLON);
        append(out, m.value.as_slice());
        proof {
            let mv = (m.key@, m.value@);
            assert(member_views(ms@.subrange(0, k + 1)) =~= done.push(mv));
            lemma_members_text_push(done, mv);
        }
        k = k + 1;
    }
    out.push(CLOSE_BRACE);
    proof {
        assert(ms@.subrange(0, ms@.len() as int) =~= ms@);
    }
}

/// Splitting a compact object text and writing its members back gives the
/// same text.
pub proof fn lemma_object_round_trip(s: Seq<u8>)
    requires
        parse_object(s) is Some,
    ensures
        object_text(parse_object(s)->0) == s,
{
    let ms = parse_object(s)->0;
    if ms.len() == 0 && s.len() == 2 {
        assert(object_text(ms) =~= s);
    } else {
        lemma_members_from_text(s, 1);
        assert(s =~= seq![OPEN_BRACE] + s.subrange(1, s.len() as int));
    }
}

proof fn lemma_members_from_text(s: Seq<u8>, i: int)
    requires
        members_from(s, i) is Some,
    ensures
        s.subrange(i, s.len() as int) == members_text(members_from(s, i)->0) + seq![CLOSE_BRACE],
    decreases s.len() - i,
{
    let c = string_close(s, i + 1, false)->0;
    let e = value_end(s, c + 2)->0;
    lemma_string_close(s, i + 1, false);
    let m = (s.subrange(i + 1, c), s.subrange(c + 2, e));
    if s[e] == CLOSE_BRACE && e + 1 == s.len() {
        assert(s.subrange(i, s.len() as int) =~= member_text(m) + seq![CLOSE_BRACE]);
    } else {
        lemma_members_from_text(s, e + 1);
        let rest = members_from(s, e + 1)->0;
        lemma_members_from_nonempty(s, e + 1);
        assert((seq![m] + rest).drop_first() =~= rest);
        assert(s.subrange(i, s.len() as int) =~= member_text(m) + seq![COMMA] + s.subrange(
            e + 1,
            s.len() as int,
        ));
    }
}

proof fn lemma_members_from_nonempty(s: Seq<u8>, i: int)
    requires
        members_from(s, i) is Some,
    ensures
        members_from(s, i)->0.len() >= 1,
    decreases s.len() - i,
{
}

/// The value of the first member with key `k`.
pub open spec fn lookup(ms: Seq<RawMember>, k: Seq<u8>) -> Option<Seq<u8>>
    decreases ms.len(),
{
    if ms.len() == 0 {
        None
    } else if ms[0].0 == k {
        Some(ms[0].1)
    } else {
        lookup(ms.drop_first(), k)
    }
}

/// No two members share a key.
pub open spec fn distinct_keys(ms: Seq<RawMember>) -> bool {
    forall|i: int, j: int| 0 <= i < j < ms.len() ==> ms[i].0 != ms[j].0
}

pub fn bytes_eq(a: &[u8], b: &[u8]) -> (r: bool)
    ensures
        r == (a@ == b@),
{
    if a.len() != b.len() {
        return false;
    }
    let mut i: usize = 0;
    while i < a.len()
        invariant
            a@.len() == b@.len(),
            i <= a@.len(),
            forall|j: int| 0 <= j < i ==> a@[j] == b@[j],
        decreases a.len() - i,
    {
        if a[i] != b[i] {
            return false;
        }
        i = i + 1;
    }
    assert(a@ =~= b@);
    true
}

/// The value of the first member of `ms` with key `k`.
pub fn find_member(ms: &Vec<Member>, k: &[u8]) -> (r: Option<Vec<u8>>)
    ensures
        match r {
            Some(v) => lookup(member_views(ms@), k@) == Some(v@),
            None => lookup(member_views(ms@), k@) is None,
        },
{
    let ghost all = member_views(ms@);
    let mut i: usize = 0;
    assert(all.subrange(0, all.len() as int) =~= all);
    while i < ms.len()
        invariant
            i <= ms@.len(),
            all == member_views(ms@),
            lookup(all, k@) == lookup(all.subrange(i as int, all.len() as int), k@),
        decreases ms.len() - i,
    {
        let ghost rest = all.subrange(i as int, all.len() as int);
        assert(rest.drop_first() =~= all.subrange(i + 1, all.len() as int));
        if bytes_eq(ms[i].key.as_slice(), k) {
            return Some(copy_range(ms[i].value.as_slice(), 0, ms[i].value.len()));
        }
        i = i + 1;
    }
    None
}

/// Whether no two members of `ms` share a key.
pub fn has_distinct_keys(ms: &Vec<Member>) -> (r: bool)
    ensures
        r == distinct_keys(member_views(ms@)),
{
    let ghost v = member_views(ms@);
    let mut j: usize = 0;
    while j < ms.len()
        invariant
            j <= ms@.len(),
            v == member_views(ms@),
            forall|a: int, b: int| 0 <= a < b < j ==> v[a].0 != v[b].0,
        decreases ms.len() - j,
    {
        let mut i: usize = 0;
        while i < j
            invariant
                i <= j < ms@.len(),
                v == member_views(ms@),
                forall|a: int, b: int| 0 <= a < b < j ==> v[a].0 != v[b].0,
                forall|a: int| 0 <= a < i ==> v[a].0 != v[j as int].0,
            decreases j - i,
        {
            if bytes_eq(ms[i].key.as_slice(), ms[j].key.as_slice()) {
                assert(v[i as int].0 == v[j as int].0);
                return false;
            }
            i = i + 1;
        }
        j = j + 1;
    }
    true
}

/// The items of an array text from index `i`, just after `[` or `,`, to the
/// closing `]` that ends the text.
pub open spec fn items_from(s: Seq<u8>, i: int) -> Option<Seq<Seq<u8>>>
    decreases s.len() - i,
{
    match value_end(s, i) {
        None => None,
        Some(e) => if e <= i || e >= s.len() {
            None
        } else if s[e] == CLOSE_BRACKET && e + 1 == s.len() {
            Some(seq![s.subrange(i, e)])
        } else if s[e] == COMMA {
            match items_from(s, e + 1) {
                Some(rest) => Some(seq![s.subrange(i, e)] + rest),
                None => None,
            }
        } else {
            None
        },
    }
}

/// The texts of the items of the array that the whole text `s` is.
pub open spec fn parse_array(s: Seq<u8>) -> Option<Seq<Seq<u8>>> {
    if s.len() == 2 && s[0] == OPEN_BRACKET && s[1] == CLOSE_BRACKET {
        Some(seq![])
    } else if s.len() > 2 && s[0] == OPEN_BRACKET {
        items_from(s, 1)
    } else {
        None
    }
}

pub open spec fn byte_views(v: Seq<Vec<u8>>) -> Seq<Seq<u8>> {
    v.map_values(|x: Vec<u8>| x@)
}

pub open spec fn prefixed_items(acc: Seq<Seq<u8>>, rest: Option<Seq<Seq<u8>>>) -> Option<Seq<Seq<u8>>> {
    match rest {
        Some(r) => Some(acc + r),
        None => None,
    }
}

/// Splits the text of an array into the texts of its items, in order.
pub fn split_array(s: &[u8]) -> (r: Option<Vec<Vec<u8>>>)
    ensures
        match r {
            Some(v) => parse_array(s@) == Some(byte_views(v@)),
            None => parse_array(s@) is None,
        },
{
    let n = s.len();
    if n == 2 && s[0] == OPEN_BRACKET && s[1] == CLOSE_BRACKET {
        proof {
            assert(byte_views(Seq::<Vec<u8>>::empty()) =~= seq![]);
        }
        return Some(Vec::new());
    }
    if n <= 2 || s[0] != OPEN_BRACKET {
        return None;
    }
    let mut acc: Vec<Vec<u8>> = Vec::new();
    let mut i: usize = 1;
    proof {
        assert(byte_views(acc@) =~= seq![]);
        assert(prefixed_items(seq![], items_from(s@, 1)) == items_from(s@, 1));
    }
    loop
        invariant
            1 <= i <= n,
            n == s@.len(),
            parse_array(s@) == prefixed_items(byte_views(acc@), items_from(s@, i as int)),
        decreases n - i,
    {
        proof {
            lemma_value_end(s@, i as int);
        }
        let e = match find_value_end(s, i) {
            Some(e) => e,
            None => {
                return None;
            },
        };
        if e >= n {
            return None;
        }
        let item = copy_range(s, i, e);
        let ghost before = byte_views(acc@);
        if s[e] == CLOSE_BRACKET && e + 1 == n {
            acc.push(item);
            proof {
                assert(byte_views(acc@) =~= before + seq![item@]);
            }
            return Some(acc);
        } else if s[e] == COMMA {
            acc.push(item);
            proof {
                assert(byte_views(acc@) =~= before + seq![item@]);
                match items_from(s@, e + 1) {
                    Some(rest) => {
                        assert(before + (seq![item@] + rest) =~= (before + seq![item@]) + rest);
                    },
                    None => {},
                }
            }
            i = e + 1;
        } else {
            return None;
        }
    }
}

} // verus!
