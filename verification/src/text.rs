//! Character-sequence utilities shared by the model and the renderer:
//! the key order of the name-keyed containers, substring search, the
//! character replacements the diagram format needs, and indentation.
use vstd::prelude::*;

verus! {

/// Lexicographic order on character sequences, by Unicode scalar value.
/// This is the key order of every name-keyed container in the model.
pub open spec fn lex_lt(a: Seq<char>, b: Seq<char>) -> bool
    decreases a.len(),
{
    if b.len() == 0 {
        false
    } else if a.len() == 0 {
        true
    } else if a[0] != b[0] {
        (a[0] as u32) < (b[0] as u32)
    } else {
        lex_lt(a.drop_first(), b.drop_first())
    }
}

/// Distinct characters have distinct scalar values.
proof fn lemma_char_scalar_distinct(c1: char, c2: char)
    requires
        c1 != c2,
    ensures
        c1 as u32 != c2 as u32,
{
}

pub proof fn lemma_lex_irrefl(a: Seq<char>)
    ensures
        !lex_lt(a, a),
    decreases a.len(),
{
    if a.len() > 0 {
        lemma_lex_irrefl(a.drop_first());
    }
}

/// Two distinct sequences are ordered one way or the other.
pub proof fn lemma_lex_connex(a: Seq<char>, b: Seq<char>)
    ensures
        a == b || lex_lt(a, b) || lex_lt(b, a),
    decreases a.len(),
{
    if a.len() == 0 || b.len() == 0 {
        if a.len() == b.len() {
            assert(a =~= b);
        }
    } else if a[0] == b[0] {
        lemma_lex_connex(a.drop_first(), b.drop_first());
        if a.drop_first() == b.drop_first() {
            assert(a.drop_first().len() == b.drop_first().len());
            assert(a.len() == b.len());
            assert forall|i: int| 0 <= i < a.len() implies a[i] == b[i] by {
                if i > 0 {
                    assert(a.drop_first()[i - 1] == b.drop_first()[i - 1]);
                }
            }
            assert(a =~= b);
        }
    } else {
        lemma_char_scalar_distinct(a[0], b[0]);
    }
}

pub proof fn lemma_lex_trans(a: Seq<char>, b: Seq<char>, c: Seq<char>)
    requires
        lex_lt(a, b),
        lex_lt(b, c),
    ensures
        lex_lt(a, c),
    decreases a.len() + b.len() + c.len(),
{
    if a.len() > 0 && b.len() > 0 && c.len() > 0 {
        if a[0] == b[0] && b[0] == c[0] {
            lemma_lex_trans(a.drop_first(), b.drop_first(), c.drop_first());
        }
    }
}

/// Compares two strings in the order given by `lex_lt`.
pub fn str_lt(a: &str, b: &str) -> (r: bool)
    ensures
        r == lex_lt(a@, b@),
{
    let a_len: usize = a.unicode_len();
    let b_len: usize = b.unicode_len();
    let mut i: usize = 0;
    proof {
        assert(a@.skip(0) =~= a@);
        assert(b@.skip(0) =~= b@);
    }
    loop
        invariant
            i <= a_len,
            i <= b_len,
            a_len == a@.len(),
            b_len == b@.len(),
            lex_lt(a@, b@) == lex_lt(a@.skip(i as int), b@.skip(i as int)),
        decreases a_len - i,
    {
        if i >= b_len {
            return false;
        }
        if i >= a_len {
            return true;
        }
        let ca = a.get_char(i);
        let cb = b.get_char(i);
        if ca != cb {
            proof {
                assert(a@.skip(i as int)[0] == a@[i as int]);
                assert(b@.skip(i as int)[0] == b@[i as int]);
            }
            return (ca as u32) < (cb as u32);
        }
        proof {
            assert(a@.skip(i as int)[0] == b@.skip(i as int)[0]);
            assert(a@.skip(i as int).drop_first() =~= a@.skip(i + 1));
            assert(b@.skip(i as int).drop_first() =~= b@.skip(i + 1));
        }
        i = i + 1;
    }
}

/// Character-for-character string equality.
pub fn str_eq(a: &str, b: &str) -> (r: bool)
    ensures
        r == (a@ == b@),
{
    let a_len: usize = a.unicode_len();
    let b_len: usize = b.unicode_len();
    if a_len != b_len {
        return false;
    }
    let mut i: usize = 0;
    while i < a_len
        invariant
            i <= a_len,
            a_len == a@.len(),
            a_len == b@.len(),
            forall|j: int| 0 <= j < i ==> a@[j] == b@[j],
        decreases a_len - i,
    {
        if a.get_char(i) != b.get_char(i) {
            return false;
        }
        i = i + 1;
    }
    proof {
        assert(a@ =~= b@);
    }
    true
}

/// The needle occurs somewhere in the haystack.
pub open spec fn contains_seq(hay: Seq<char>, needle: Seq<char>) -> bool {
    exists|k: int|
        0 <= k <= hay.len() - needle.len() && #[trigger] hay.subrange(k, k + needle.len())
            == needle
}

fn match_at(hay: &str, needle: &str, k: usize) -> (r: bool)
    requires
        k + needle@.len() <= hay@.len(),
        hay@.len() <= usize::MAX,
    ensures
        r == (hay@.subrange(k as int, k + needle@.len()) == needle@),
{
    let n_len: usize = needle.unicode_len();
    let mut j: usize = 0;
    while j < n_len
        invariant
            j <= n_len,
            n_len == needle@.len(),
            k + n_len <= hay@.len(),
            hay@.len() <= usize::MAX,
            forall|t: int| 0 <= t < j ==> hay@[k + t] == needle@[t],
        decreases n_len - j,
    {
        if hay.get_char(k + j) != needle.get_char(j) {
            proof {
                assert(hay@.subrange(k as int, k + needle@.len())[j as int] == hay@[k + j]);
            }
            return false;
        }
        j = j + 1;
    }
    proof {
        assert(hay@.subrange(k as int, k + needle@.len()) =~= needle@);
    }
    true
}

/// Substring search, as the relation pass uses it.
pub fn str_contains(hay: &str, needle: &str) -> (r: bool)
    ensures
        r == contains_seq(hay@, needle@),
{
    let h_len: usize = hay.unicode_len();
    let n_len: usize = needle.unicode_len();
    if n_len > h_len {
        return false;
    }
    if n_len == 0 {
        proof {
            assert(hay@.subrange(0, 0 + needle@.len() as int) =~= needle@);
        }
        return true;
    }
    let mut k: usize = 0;
    while k <= h_len - n_len
        invariant
            0 < n_len <= h_len,
            h_len == hay@.len(),
            n_len == needle@.len(),
            k <= h_len - n_len + 1,
            forall|t: int|
                0 <= t < k ==> #[trigger] hay@.subrange(t, t + needle@.len()) != needle@,
        decreases h_len - n_len - k + 1,
    {
        if match_at(hay, needle, k) {
            return true;
        }
        k = k + 1;
    }
    false
}

/// Every `.` replaced by `_`: how a qualified module name becomes a
/// package identifier.
pub open spec fn dot_to_underscore(s: Seq<char>) -> Seq<char> {
    s.map_values(|c: char| if c == '.' { '_' } else { c })
}

/// Builds the package identifier for a qualified module name.
pub fn package_ident(s: &str) -> (r: String)
    ensures
        r@ == dot_to_underscore(s@),
{
    let len: usize = s.unicode_len();
    let mut out = String::new();
    let mut i: usize = 0;
    proof {
        assert(out@ =~= dot_to_underscore(s@.take(0)));
    }
    while i < len
        invariant
            i <= len,
            len == s@.len(),
            out@ == dot_to_underscore(s@.take(i as int)),
        decreases len - i,
    {
        let c = s.get_char(i);
        if c == '.' {
            out.append("_");
            proof {
                reveal_strlit("_");
                assert("_"@ =~= seq!['_']);
            }
        } else {
            let piece = s.substring_char(i, i + 1);
            out.append(piece);
            proof {
                assert(s@.subrange(i as int, i + 1) =~= seq![s@[i as int]]);
            }
        }
        proof {
            assert(dot_to_underscore(s@.take(i + 1)) =~= dot_to_underscore(
                s@.take(i as int),
            ).push(if s@[i as int] == '.' { '_' } else { s@[i as int] }));
            assert(out@ =~= dot_to_underscore(s@.take(i + 1)));
        }
        i = i + 1;
    }
    proof {
        assert(s@.take(len as int) =~= s@);
    }
    out
}

/// Every `-` replaced by `_`: how a crate directory's name becomes a
/// module-name stem.
pub open spec fn dash_to_underscore(s: Seq<char>) -> Seq<char> {
    s.map_values(|c: char| if c == '-' { '_' } else { c })
}

/// Builds the module-name stem for a crate name.
pub fn crate_ident(s: &str) -> (r: String)
    ensures
        r@ == dash_to_underscore(s@),
{
    let len: usize = s.unicode_len();
    let mut out = String::new();
    let mut i: usize = 0;
    proof {
        assert(out@ =~= dash_to_underscore(s@.take(0)));
    }
    while i < len
        invariant
            i <= len,
            len == s@.len(),
            out@ == dash_to_underscore(s@.take(i as int)),
        decreases len - i,
    {
        let c = s.get_char(i);
        if c == '-' {
            out.append("_");
            proof {
                reveal_strlit("_");
                assert("_"@ =~= seq!['_']);
            }
        } else {
            let piece = s.substring_char(i, i + 1);
            out.append(piece);
            proof {
                assert(s@.subrange(i as int, i + 1) =~= seq![s@[i as int]]);
            }
        }
        proof {
            assert(dash_to_underscore(s@.take(i + 1)) =~= dash_to_underscore(
                s@.take(i as int),
            ).push(if s@[i as int] == '-' { '_' } else { s@[i as int] }));
            assert(out@ =~= dash_to_underscore(s@.take(i + 1)));
        }
        i = i + 1;
    }
    proof {
        assert(s@.take(len as int) =~= s@);
    }
    out
}

/// Every occurrence of `::` replaced by `_`, leftmost first, without
/// overlap: how a member's type name is prepared for the relation pass.
pub open spec fn colons_to_underscore(s: Seq<char>) -> Seq<char>
    decreases s.len(),
{
    if s.len() >= 2 && s[0] == ':' && s[1] == ':' {
        seq!['_'] + colons_to_underscore(s.skip(2))
    } else if s.len() == 0 {
        s
    } else {
        seq![s[0]] + colons_to_underscore(s.drop_first())
    }
}

/// Rewrites a type name for the relation pass.
pub fn path_ident(s: &str) -> (r: String)
    ensures
        r@ == colons_to_underscore(s@),
{
    let len: usize = s.unicode_len();
    let mut out = String::new();
    let mut i: usize = 0;
    proof {
        assert(s@.skip(0) =~= s@);
        assert(out@ + colons_to_underscore(s@) =~= colons_to_underscore(s@));
    }
    while i < len
        invariant
            i <= len,
            len == s@.len(),
            out@ + colons_to_underscore(s@.skip(i as int)) == colons_to_underscore(s@),
        decreases len - i,
    {
        let ghost rest = s@.skip(i as int);
        if i + 1 < len && s.get_char(i) == ':' && s.get_char(i + 1) == ':' {
            out.append("_");
            proof {
                reveal_strlit("_");
                assert("_"@ =~= seq!['_']);
                assert(rest[0] == s@[i as int]);
                assert(rest[1] == s@[i + 1]);
                assert(rest.skip(2) =~= s@.skip(i + 2));
                assert(colons_to_underscore(rest) == seq!['_'] + colons_to_underscore(
                    s@.skip(i + 2),
                ));
                assert(out@ + colons_to_underscore(s@.skip(i + 2)) =~= colons_to_underscore(s@));
            }
            i = i + 2;
        } else {
            let piece = s.substring_char(i, i + 1);
            out.append(piece);
            proof {
                assert(rest[0] == s@[i as int]);
                assert(s@.subrange(i as int, i + 1) =~= seq![rest[0]]);
                assert(rest.drop_first() =~= s@.skip(i + 1));
                if rest.len() >= 2 && rest[0] == ':' && rest[1] == ':' {
                    assert(i + 1 < len && s@[i as int] == ':' && s@[i + 1] == ':');
                    assert(false);
                }
                assert(colons_to_underscore(rest) == seq![rest[0]] + colons_to_underscore(
                    s@.skip(i + 1),
                ));
                assert(out@ + colons_to_underscore(s@.skip(i + 1)) =~= colons_to_underscore(s@));
            }
            i = i + 1;
        }
    }
    proof {
        assert(s@.skip(len as int) =~= Seq::<char>::empty());
        assert(colons_to_underscore(Seq::<char>::empty()) =~= Seq::<char>::empty());
        assert(out@ =~= out@ + Seq::<char>::empty());
    }
    out
}

/// The suffix test that picks out root modules.
pub open spec fn ends_with(s: Seq<char>, suffix: Seq<char>) -> bool {
    suffix.len() <= s.len() && s.skip(s.len() - suffix.len()) == suffix
}

/// Suffix test on strings.
pub fn str_ends_with(s: &str, suffix: &str) -> (r: bool)
    ensures
        r == ends_with(s@, suffix@),
{
    let s_len: usize = s.unicode_len();
    let f_len: usize = suffix.unicode_len();
    if f_len > s_len {
        return false;
    }
    let mut j: usize = 0;
    while j < f_len
        invariant
            j <= f_len,
            f_len <= s_len,
            s_len == s@.len(),
            f_len == suffix@.len(),
            forall|t: int| 0 <= t < j ==> s@[s@.len() - suffix@.len() + t] == suffix@[t],
        decreases f_len - j,
    {
        if s.get_char(s_len - f_len + j) != suffix.get_char(j) {
            proof {
                assert(s@.skip(s@.len() - suffix@.len())[j as int] == s@[s@.len() - suffix@.len()
                    + j]);
            }
            return false;
        }
        j = j + 1;
    }
    proof {
        assert(s@.skip(s@.len() - suffix@.len()) =~= suffix@);
    }
    true
}

/// Two spaces per nesting level, as the renderer indents with.
pub open spec fn indent_seq(level: nat) -> Seq<char>
    decreases level,
{
    if level == 0 {
        Seq::empty()
    } else {
        indent_seq((level - 1) as nat) + "  "@
    }
}

/// Builds the indentation for a nesting level.
pub fn indent(level: usize) -> (r: String)
    ensures
        r@ == indent_seq(level as nat),
{
    let mut out = String::new();
    let mut i: usize = 0;
    proof {
        assert(out@ =~= indent_seq(0));
    }
    while i < level
        invariant
            i <= level,
            out@ == indent_seq(i as nat),
        decreases level - i,
    {
        out.append("  ");
        i = i + 1;
    }
    out
}

} // verus!
