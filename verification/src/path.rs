//! Qualified-name paths: `/Machine/state/child`.

use vstd::prelude::*;
use vstd::utf8::encode_utf8;
use crate::text::{last_index, lemma_last_index, has_prefix};
use crate::text;

verus! {

/// `path` taken relative to `base`, unless it is absolute.
pub open spec fn spec_join(base: Seq<char>, path: Seq<char>) -> Seq<char> {
    if path.len() > 0 && path[0] == '/' {
        path
    } else if base == seq!['/'] {
        seq!['/'] + path
    } else if base.len() == 0 {
        path
    } else {
        base + seq!['/'] + path
    }
}

/// Everything before the last `/` ("" for the root, for names without a
/// parent, and for names directly under the root).
pub open spec fn spec_dirname(path: Seq<char>) -> Seq<char> {
    if path == seq!['/'] || path.len() == 0 {
        seq![]
    } else {
        let pos = last_index(path, '/');
        if pos <= 0 {
            seq![]
        } else {
            path.subrange(0, pos)
        }
    }
}

/// Everything after the last `/`.
pub open spec fn spec_basename(path: Seq<char>) -> Seq<char> {
    let pos = last_index(path, '/');
    if pos >= 0 {
        path.subrange(pos + 1, path.len() as int)
    } else {
        path
    }
}

/// `ancestor` is `descendant`, the root, or a prefix of `descendant` that is
/// followed by `/` at the character position given by the byte length of
/// `ancestor` (the same position for ASCII names).
pub open spec fn spec_is_ancestor_or_equal(ancestor: Seq<char>, descendant: Seq<char>) -> bool {
    if ancestor == descendant {
        true
    } else if ancestor == seq!['/'] {
        true
    } else if descendant == seq!['/'] || descendant.len() == 0 {
        false
    } else {
        let k = encode_utf8(ancestor).len() as usize;
        has_prefix(descendant, ancestor) && k < descendant.len() && descendant[k as int] == '/'
    }
}

pub proof fn lemma_dirname_shorter(path: Seq<char>)
    requires
        path.len() > 0,
    ensures
        spec_dirname(path).len() < path.len(),
{
    lemma_last_index(path, '/');
}

/// The lowest common ancestor of two qualified names.
pub open spec fn spec_lca(a: Seq<char>, b: Seq<char>) -> Seq<char>
    decreases a.len() + b.len(),
{
    if a == b {
        spec_dirname(a)
    } else if a.len() == 0 {
        b
    } else if b.len() == 0 {
        a
    } else if spec_dirname(a) == spec_dirname(b) {
        spec_dirname(a)
    } else if spec_is_ancestor_or_equal(a, b) {
        a
    } else if spec_is_ancestor_or_equal(b, a) {
        b
    } else {
        proof {
            lemma_dirname_shorter(a);
            lemma_dirname_shorter(b);
        }
        spec_lca(spec_dirname(a), spec_dirname(b))
    }
}

/// Resolves `path` against `base` (an absolute `path` is kept as it is).
pub fn join(base: &str, path: &str) -> (r: String)
    ensures
        r@ == spec_join(base@, path@),
{
    if text::starts_with_char(path, '/') {
        return text::owned(path);
    }
    proof {
        reveal_strlit("/");
        assert("/"@ =~= seq!['/']);
    }
    if text::str_eq(base, "/") {
        text::concat("/", path)
    } else if base.unicode_len() == 0 {
        text::owned(path)
    } else {
        text::concat3(base, "/", path)
    }
}

/// The owner of a qualified name.
pub fn dirname(path: &str) -> (r: &str)
    ensures
        r@ == spec_dirname(path@),
{
    proof {
        reveal_strlit("/");
        reveal_strlit("");
        assert("/"@ =~= seq!['/']);
        assert(""@ =~= Seq::<char>::empty());
        lemma_last_index(path@, '/');
    }
    if text::str_eq(path, "/") || path.unicode_len() == 0 {
        return "";
    }
    match text::rfind_char(path, '/') {
        Some(pos) => {
            if pos == 0 {
                ""
            } else {
                text::slice(path, 0, pos)
            }
        },
        None => "",
    }
}

/// The last segment of a qualified name.
pub fn basename(path: &str) -> (r: &str)
    ensures
        r@ == spec_basename(path@),
{
    proof {
        lemma_last_index(path@, '/');
    }
    let n = path.unicode_len();
    match text::rfind_char(path, '/') {
        Some(pos) => text::slice(path, pos + 1, n),
        None => path,
    }
}

/// Whether `ancestor` is `descendant` or one of its owners.
pub fn is_ancestor_or_equal(ancestor: &str, descendant: &str) -> (r: bool)
    ensures
        r == spec_is_ancestor_or_equal(ancestor@, descendant@),
{
    proof {
        reveal_strlit("/");
        assert("/"@ =~= seq!['/']);
    }
    if text::str_eq(ancestor, descendant) {
        return true;
    }
    if text::str_eq(ancestor, "/") {
        return true;
    }
    if text::str_eq(descendant, "/") || descendant.unicode_len() == 0 {
        return false;
    }
    let k = ancestor.len();
    text::starts_with(descendant, ancestor) && k < descendant.unicode_len() && descendant.get_char(k)
        == '/'
}

/// The lowest common ancestor of `a` and `b`.
pub fn lca(a: &str, b: &str) -> (r: String)
    ensures
        r@ == spec_lca(a@, b@),
    decreases a@.len() + b@.len(),
{
    if text::str_eq(a, b) {
        return text::owned(dirname(a));
    }
    if a.unicode_len() == 0 {
        return text::owned(b);
    }
    if b.unicode_len() == 0 {
        return text::owned(a);
    }
    let da = dirname(a);
    let db = dirname(b);
    if text::str_eq(da, db) {
        return text::owned(da);
    }
    if is_ancestor_or_equal(a, b) {
        return text::owned(a);
    }
    if is_ancestor_or_equal(b, a) {
        return text::owned(b);
    }
    proof {
        lemma_dirname_shorter(a@);
        lemma_dirname_shorter(b@);
    }
    lca(da, db)
}

/// Event names match exactly (no wildcards).
pub fn event_matches(pattern: &str, text: &str) -> (r: bool)
    ensures
        r == (pattern@ == text@),
{
    text::str_eq(pattern, text)
}

/// The last segment of a name joined under any base is the name itself, for a
/// name without `/`.
pub proof fn law_basename_of_join(base: Seq<char>, name: Seq<char>)
    requires
        !name.contains('/'),
    ensures
        spec_basename(spec_join(base, name)) == name,
{
    let j = spec_join(base, name);
    lemma_last_index(j, '/');
    if name.len() > 0 {
        assert(name[0] != '/');
    }
    if base == seq!['/'] || base.len() > 0 {
        let k = j.len() - name.len() - 1;
        assert(j[k] == '/');
        assert forall|i: int| k < i < j.len() implies j[i] != '/' by {
            assert(j[i] == name[i - k - 1]);
        }
        crate::text::lemma_last_index_at(j, '/', k);
        assert(j.subrange(k + 1, j.len() as int) =~= name);
    } else {
        assert(j == name);
        assert forall|i: int| 0 <= i < j.len() implies j[i] != '/' by {
            assert(name.contains(j[i]));
        }
        crate::text::lemma_last_index_absent(j, '/');
    }
}

/// Joining a name without `/` under a base other than the root and "" gives a
/// name whose owner is that base.
pub proof fn law_dirname_of_join(base: Seq<char>, name: Seq<char>)
    requires
        !name.contains('/'),
        base.len() > 0,
        base != seq!['/'],
    ensures
        spec_dirname(spec_join(base, name)) == base,
{
    let j = spec_join(base, name);
    if name.len() > 0 {
        assert(name[0] != '/');
    }
    assert(j == base + seq!['/'] + name);
    let k = base.len() as int;
    assert(j[k] == '/');
    assert forall|i: int| k < i < j.len() implies j[i] != '/' by {
        assert(j[i] == name[i - k - 1]);
    }
    crate::text::lemma_last_index_at(j, '/', k);
    assert(j != seq!['/']) by {
        assert(j.len() >= 2);
    }
    assert(j.subrange(0, k) =~= base);
}

/// A name joined under an ASCII base lies below that base.
pub proof fn law_join_is_descendant(base: Seq<char>, name: Seq<char>)
    requires
        !name.contains('/'),
        base.len() > 0,
        base.len() <= usize::MAX,
        vstd::utf8::is_ascii_chars(base),
    ensures
        spec_is_ancestor_or_equal(base, spec_join(base, name)),
{
    let j = spec_join(base, name);
    if name.len() > 0 {
        assert(name[0] != '/');
    }
    if base != seq!['/'] {
        vstd::utf8::is_ascii_chars_encode_utf8(base);
        assert(j == base + seq!['/'] + name);
        assert(j.subrange(0, base.len() as int) =~= base);
        assert(j[base.len() as int] == '/');
        if j == seq!['/'] {
            assert(j.len() >= 2);
        }
    }
}

proof fn lemma_mutual_ancestors_equal(a: Seq<char>, b: Seq<char>)
    requires
        spec_is_ancestor_or_equal(a, b),
        spec_is_ancestor_or_equal(b, a),
    ensures
        a == b,
{
    if a != b {
        if a == seq!['/'] {
            assert(b != seq!['/']);
            assert(has_prefix(a, b));
            assert(b.len() <= 1);
            if b.len() == 1 {
                assert(b =~= a.subrange(0, 1));
            } else {
                assert(a.len() == 0 || b.len() == 0);
            }
        } else if b == seq!['/'] {
            assert(has_prefix(b, a));
            if a.len() == 1 {
                assert(a =~= b.subrange(0, 1));
            }
        } else {
            assert(has_prefix(b, a) && has_prefix(a, b));
            assert(a =~= b);
        }
    }
}

/// The lowest common ancestor does not depend on the order of its arguments.
pub proof fn law_lca_symmetric(a: Seq<char>, b: Seq<char>)
    ensures
        spec_lca(a, b) == spec_lca(b, a),
    decreases a.len() + b.len(),
{
    if a != b && a.len() > 0 && b.len() > 0 && spec_dirname(a) != spec_dirname(b) {
        if spec_is_ancestor_or_equal(a, b) && spec_is_ancestor_or_equal(b, a) {
            lemma_mutual_ancestors_equal(a, b);
        }
        if !spec_is_ancestor_or_equal(a, b) && !spec_is_ancestor_or_equal(b, a) {
            lemma_dirname_shorter(a);
            lemma_dirname_shorter(b);
            law_lca_symmetric(spec_dirname(a), spec_dirname(b));
        }
    }
}

/// An absolute ASCII name: `/` first.
pub open spec fn is_abs_name(x: Seq<char>) -> bool {
    x.len() > 0 && x[0] == '/' && vstd::utf8::is_ascii_chars(x) && x.len() <= usize::MAX
}

/// An absolute ASCII name or the empty name.
pub open spec fn is_abs_or_empty(x: Seq<char>) -> bool {
    x.len() == 0 || is_abs_name(x)
}

proof fn lemma_ascii_prefix(y: Seq<char>, n: int)
    requires
        vstd::utf8::is_ascii_chars(y),
        0 <= n <= y.len(),
    ensures
        vstd::utf8::is_ascii_chars(y.subrange(0, n)),
{
    assert forall|i: int| 0 <= i < n implies '\0' <= #[trigger] y.subrange(0, n)[i] <= '\u{7f}' by {
        assert(y.subrange(0, n)[i] == y[i]);
    }
}

/// For an ASCII `x` that is neither `y` nor the root, and a `y` other than
/// the root: `x` lies above `y` when `y` starts with `x` and then a `/`.
proof fn lemma_ancestor_ascii(x: Seq<char>, y: Seq<char>)
    requires
        vstd::utf8::is_ascii_chars(x),
        x.len() <= usize::MAX,
        x != y,
        x != seq!['/'],
        y != seq!['/'],
        y.len() > 0,
    ensures
        spec_is_ancestor_or_equal(x, y) == (has_prefix(y, x) && x.len() < y.len() && y[x.len() as int] == '/'),
{
    vstd::utf8::is_ascii_chars_encode_utf8(x);
}

/// The owner of an absolute name other than the root lies above it, and is
/// absolute or empty.
pub proof fn lemma_dirname_above(y: Seq<char>)
    requires
        is_abs_name(y),
        y != seq!['/'],
    ensures
        spec_is_ancestor_or_equal(spec_dirname(y), y),
        is_abs_or_empty(spec_dirname(y)),
        spec_dirname(y) != y,
{
    lemma_last_index(y, '/');
    let pos = last_index(y, '/');
    assert(pos >= 0) by {
        if pos < 0 {
            assert(y[0] != '/');
        }
    }
    let d = spec_dirname(y);
    if pos == 0 {
        assert(d =~= Seq::<char>::empty());
        lemma_ancestor_ascii(d, y);
        assert(y.subrange(0, 0) =~= d);
    } else {
        assert(d == y.subrange(0, pos));
        lemma_ascii_prefix(y, pos);
        assert(d[0] == y[0]);
        if d != seq!['/'] {
            lemma_ancestor_ascii(d, y);
        }
    }
}

/// An ancestor of a name other than the name itself is an ancestor of its
/// owner.
pub proof fn lemma_ancestor_of_owner(x: Seq<char>, y: Seq<char>)
    requires
        is_abs_name(y),
        y != seq!['/'],
        x.len() > 0,
        spec_is_ancestor_or_equal(x, y),
        x != y,
    ensures
        spec_is_ancestor_or_equal(x, spec_dirname(y)),
{
    lemma_dirname_above(y);
    lemma_last_index(y, '/');
    let pos = last_index(y, '/');
    let d = spec_dirname(y);
    if x != seq!['/'] {
        assert(has_prefix(y, x));
        lemma_ascii_prefix(y, x.len() as int);
        assert(y.subrange(0, x.len() as int) == x);
        lemma_ancestor_ascii(x, y);
        assert(y[x.len() as int] == '/');
        assert(pos >= x.len());
        if pos == x.len() {
            if x.len() > 0 {
                assert(d == y.subrange(0, pos));
                assert(d =~= x);
            } else {
                assert(d =~= x);
            }
        } else {
            assert(d == y.subrange(0, pos));
            assert(d.subrange(0, x.len() as int) =~= x);
            assert(d[x.len() as int] == '/');
            if d != seq!['/'] {
                lemma_ancestor_ascii(x, d);
            }
        }
    }
}

/// Lying above is transitive.
pub proof fn lemma_ancestor_trans(x: Seq<char>, y: Seq<char>, z: Seq<char>)
    requires
        is_abs_or_empty(z),
        spec_is_ancestor_or_equal(x, y),
        spec_is_ancestor_or_equal(y, z),
    ensures
        spec_is_ancestor_or_equal(x, z),
{
    if x != y && y != z && x != seq!['/'] {
        assert(z != seq!['/'] && z.len() > 0);
        assert(has_prefix(z, y));
        lemma_ascii_prefix(z, y.len() as int);
        assert(z.subrange(0, y.len() as int) == y);
        assert(y != seq!['/']);
        assert(y.len() > 0);
        lemma_ancestor_ascii(y, z);
        assert(has_prefix(y, x));
        lemma_ascii_prefix(y, x.len() as int);
        assert(y.subrange(0, x.len() as int) == x);
        lemma_ancestor_ascii(x, y);
        assert(z.subrange(0, x.len() as int) =~= x);
        assert(z[x.len() as int] == y[x.len() as int]);
        lemma_ancestor_ascii(x, z);
    }
}

/// Whatever (non-empty) lies above two different absolute names (or empty
/// ones) lies above their lowest common ancestor.
pub proof fn law_lca_is_deepest(a: Seq<char>, b: Seq<char>, c: Seq<char>)
    requires
        c.len() > 0,
        is_abs_or_empty(a),
        is_abs_or_empty(b),
        a != b,
        spec_is_ancestor_or_equal(c, a),
        spec_is_ancestor_or_equal(c, b),
    ensures
        spec_is_ancestor_or_equal(c, spec_lca(a, b)),
    decreases a.len() + b.len(),
{
    if a.len() == 0 {
    } else if b.len() == 0 {
    } else if spec_dirname(a) == spec_dirname(b) {
        if c == a {
            assert(spec_is_ancestor_or_equal(a, b));
            if a != seq!['/'] {
                assert(b != seq!['/']);
                lemma_dirname_above(a);
                lemma_dirname_above(b);
                lemma_ancestor_ascii(a, b);
                lemma_ancestor_of_owner(a, b);
                lemma_dirname_shorter(a);
                assert(spec_is_ancestor_or_equal(a, spec_dirname(a)));
                assert(has_prefix(spec_dirname(a), a) || spec_dirname(a) == a);
            }
        } else if a != seq!['/'] {
            lemma_ancestor_of_owner(c, a);
        }
    } else if spec_is_ancestor_or_equal(a, b) {
    } else if spec_is_ancestor_or_equal(b, a) {
    } else {
        assert(a != seq!['/'] && b != seq!['/']);
        assert(c != a && c != b);
        lemma_dirname_above(a);
        lemma_dirname_above(b);
        lemma_ancestor_of_owner(c, a);
        lemma_ancestor_of_owner(c, b);
        lemma_dirname_shorter(a);
        lemma_dirname_shorter(b);
        law_lca_is_deepest(spec_dirname(a), spec_dirname(b), c);
    }
}

/// The lowest common ancestor of two different absolute names that both lie
/// within the machine `r` (not the root `/`) lies above each of them and
/// within `r`.
pub proof fn law_lca_is_common_ancestor(a: Seq<char>, b: Seq<char>, r: Seq<char>)
    requires
        is_abs_name(a),
        is_abs_name(b),
        a != b,
        is_abs_name(r),
        r != seq!['/'],
        spec_is_ancestor_or_equal(r, a),
        spec_is_ancestor_or_equal(r, b),
    ensures
        spec_is_ancestor_or_equal(spec_lca(a, b), a),
        spec_is_ancestor_or_equal(spec_lca(a, b), b),
        spec_is_ancestor_or_equal(r, spec_lca(a, b)),
    decreases a.len() + b.len(),
{
    assert(a != seq!['/'] && b != seq!['/']);
    lemma_dirname_above(a);
    lemma_dirname_above(b);
    lemma_dirname_shorter(a);
    lemma_dirname_shorter(b);
    let da = spec_dirname(a);
    let db = spec_dirname(b);
    if da == db {
        if r == a {
            lemma_ancestor_of_owner(a, b);
            assert(spec_is_ancestor_or_equal(a, da));
            assert(false);
        }
        lemma_ancestor_of_owner(r, a);
    } else if spec_is_ancestor_or_equal(a, b) {
    } else if spec_is_ancestor_or_equal(b, a) {
    } else {
        lemma_ancestor_of_owner(r, a);
        lemma_ancestor_of_owner(r, b);
        assert(da.len() > 0 && db.len() > 0);
        law_lca_is_common_ancestor(da, db, r);
        let l = spec_lca(da, db);
        lemma_ancestor_trans(l, da, a);
        lemma_ancestor_trans(l, db, b);
    }
}

} // verus!
