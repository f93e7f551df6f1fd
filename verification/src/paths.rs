//! Lexical path handling.
//!
//! Staging works on paths as plain strings of `/`-separated components.
//! Everything in this module is purely lexical: no filesystem access and no
//! symlink resolution, so the results are deterministic functions of the
//! input strings.

use vstd::prelude::*;

use crate::error::{context_error, ErrorKind, ErrorSpec, StagingError};

verus! {

/// Whether `s` begins with the root separator.
pub open spec fn is_absolute(s: Seq<char>) -> bool {
    s.len() > 0 && s[0] == '/'
}

/// Whether `s` begins with the root separator.
pub fn check_absolute(s: &str) -> (r: bool)
    ensures
        r == is_absolute(s@),
{
    let n = s.unicode_len();
    n > 0 && s.get_char(0) == '/'
}

/// Closes the pending component `cur` of a normalization in progress: empty
/// and `.` components vanish, `..` pops the last retained component (failing
/// when none is left), anything else is retained.
pub open spec fn flush_component(stack: Seq<Seq<char>>, cur: Seq<char>) -> Option<Seq<Seq<char>>> {
    if cur.len() == 0 || cur == seq!['.'] {
        Some(stack)
    } else if cur == seq!['.', '.'] {
        if stack.len() == 0 {
            None
        } else {
            Some(stack.drop_last())
        }
    } else {
        Some(stack.push(cur))
    }
}

/// One character of normalization: a separator closes the pending component,
/// any other character extends it.
pub open spec fn norm_step(st: Option<(Seq<Seq<char>>, Seq<char>)>, c: char) -> Option<
    (Seq<Seq<char>>, Seq<char>),
> {
    match st {
        None => None,
        Some(p) => if c == '/' {
            match flush_component(p.0, p.1) {
                None => None,
                Some(stack) => Some((stack, Seq::empty())),
            }
        } else {
            Some((p.0, p.1.push(c)))
        },
    }
}

/// The normalization state (retained components, pending component) after
/// reading the first `n` characters of `s`.
pub open spec fn norm_prefix(s: Seq<char>, n: int) -> Option<(Seq<Seq<char>>, Seq<char>)>
    decreases n,
{
    if n <= 0 {
        Some((Seq::<Seq<char>>::empty(), Seq::<char>::empty()))
    } else {
        norm_step(norm_prefix(s, n - 1), s[n - 1])
    }
}

/// The retained components of `s` after dropping empty and `.` components
/// and resolving `..` ones, or `None` when a `..` has nothing left to pop.
pub open spec fn normal_components(s: Seq<char>) -> Option<Seq<Seq<char>>> {
    match norm_prefix(s, s.len() as int) {
        None => None,
        Some(p) => flush_component(p.0, p.1),
    }
}

/// `parts` joined with the separator.
pub open spec fn join_components(parts: Seq<Seq<char>>) -> Seq<char>
    decreases parts.len(),
{
    if parts.len() == 0 {
        Seq::<char>::empty()
    } else if parts.len() == 1 {
        parts[0]
    } else {
        join_components(parts.drop_last()) + "/"@ + parts.last()
    }
}

/// The error [`abs_to_rel`] fails with: one for a path missing the root
/// separator, one for a path that escapes the root.
pub open spec fn abs_to_rel_error(s: Seq<char>) -> ErrorSpec {
    if !is_absolute(s) {
        context_error(
            ErrorKind::InvalidConfiguration,
            "Path is not absolute (within the stage): "@ + s,
        )
    } else {
        context_error(ErrorKind::InvalidConfiguration, "Path is outside of staging root: "@ + s)
    }
}

/// What [`abs_to_rel`] returns: for an absolute logical path, the normalized
/// root-relative form; `None` for a relative path or one that escapes the
/// root.
pub open spec fn abs_to_rel_spec(s: Seq<char>) -> Option<Seq<char>> {
    if !is_absolute(s) {
        None
    } else {
        match normal_components(s) {
            None => None,
            Some(parts) => Some(join_components(parts)),
        }
    }
}

/// Closes the component `abs[start..end]` against `stack`, mirroring
/// [`flush_component`]; returns false (leaving `stack` unchanged) when a
/// `..` has nothing left to pop.
fn flush_exec(stack: &mut Vec<String>, abs: &str, start: usize, end: usize) -> (ok: bool)
    requires
        start <= end <= abs@.len(),
    ensures
        match flush_component(old(stack).deep_view(), abs@.subrange(start as int, end as int)) {
            Some(st) => ok && final(stack).deep_view() == st,
            None => !ok && final(stack).deep_view() == old(stack).deep_view(),
        },
{
    let ghost cur = abs@.subrange(start as int, end as int);
    let len = end - start;
    if len == 0 {
        true
    } else if len == 1 && abs.get_char(start) == '.' {
        proof {
            assert(cur =~= seq!['.']);
        }
        true
    } else if len == 2 && abs.get_char(start) == '.' && abs.get_char(start + 1) == '.' {
        proof {
            assert(cur =~= seq!['.', '.']);
        }
        if stack.len() == 0 {
            false
        } else {
            stack.pop();
            proof {
                assert(stack.deep_view() =~= old(stack).deep_view().drop_last());
            }
            true
        }
    } else {
        proof {
            assert(cur.len() > 0);
            if cur.len() == 1 {
                assert(cur[0] != '.');
            }
            if cur.len() == 2 {
                assert(cur[0] != '.' || cur[1] != '.');
            }
            assert(cur != seq!['.']);
            assert(cur != seq!['.', '.']);
        }
        let comp = abs.substring_char(start, end);
        stack.push(String::from_str(comp));
        proof {
            assert(stack.deep_view() =~= old(stack).deep_view().push(cur));
        }
        true
    }
}

/// `parts` joined with the separator.
fn join_exec(parts: &Vec<String>) -> (r: String)
    ensures
        r@ == join_components(parts.deep_view()),
{
    let ghost all = parts.deep_view();
    let mut out = String::new();
    let mut i: usize = 0;
    while i < parts.len()
        invariant
            i <= parts.len(),
            all == parts.deep_view(),
            out@ == join_components(all.take(i as int)),
        decreases parts.len() - i,
    {
        if i > 0 {
            out.append("/");
        }
        out.append(parts[i].as_str());
        i = i + 1;
        proof {
            assert(all.take(i as int).drop_last() =~= all.take(i as int - 1));
            assert(all.take(i as int).len() == i);
            if i > 1 {
                assert(out@ == join_components(all.take(i as int)));
            } else {
                assert(all.take(1).len() == 1);
                assert(out@ =~= all[0]);
            }
        }
    }
    proof {
        assert(all.take(parts@.len() as int) =~= all);
    }
    out
}

/// Normalizes the logical absolute path `abs` into a root-relative path:
/// requires a leading separator, drops empty and `.` components, and
/// resolves each `..` against the components before it.
///
/// Fails with an `InvalidConfiguration` error when `abs` is not absolute or
/// when a `..` would climb out of the root.  Purely lexical and
/// deterministic; normalizing an already-normalized path re-prefixed with
/// the separator gives the path back.
pub fn abs_to_rel(abs: &str) -> (r: Result<String, StagingError>)
    ensures
        match r {
            Ok(p) => abs_to_rel_spec(abs@) == Some(p@),
            Err(e) => abs_to_rel_spec(abs@) is None && e@ == abs_to_rel_error(abs@),
        },
        !is_absolute(abs@) ==> r is Err,
{
    let n = abs.unicode_len();
    if n == 0 || abs.get_char(0) != '/' {
        let msg = String::from_str("Path is not absolute (within the stage): ").concat(abs);
        return Err(ErrorKind::InvalidConfiguration.error().set_context(msg));
    }
    let mut stack: Vec<String> = Vec::new();
    let mut start: usize = 0;
    let mut i: usize = 0;
    let mut failed = false;
    while i < n && !failed
        invariant
            start <= i <= n,
            n == abs@.len(),
            !failed ==> norm_prefix(abs@, i as int) == Some(
                (stack.deep_view(), abs@.subrange(start as int, i as int)),
            ),
            failed ==> norm_prefix(abs@, n as int) is None,
        decreases n - i,
    {
        let c = abs.get_char(i);
        if c == '/' {
            let ghost pre = norm_prefix(abs@, i as int);
            let ok = flush_exec(&mut stack, abs, start, i);
            proof {
                assert(norm_prefix(abs@, i as int + 1) == norm_step(pre, abs@[i as int]));
            }
            if !ok {
                proof {
                    lemma_norm_prefix_none(abs@, i as int + 1, n as int);
                }
                failed = true;
            } else {
                start = i + 1;
                proof {
                    assert(abs@.subrange(start as int, i as int + 1) =~= Seq::<char>::empty());
                }
            }
        } else {
            proof {
                assert(norm_prefix(abs@, i as int + 1) == norm_step(
                    norm_prefix(abs@, i as int),
                    abs@[i as int],
                ));
                assert(abs@.subrange(start as int, i as int + 1) =~= abs@.subrange(
                    start as int,
                    i as int,
                ).push(abs@[i as int]));
            }
        }
        i = i + 1;
    }
    if failed {
        let msg = String::from_str("Path is outside of staging root: ").concat(abs);
        return Err(ErrorKind::InvalidConfiguration.error().set_context(msg));
    }
    let ghost fin = norm_prefix(abs@, n as int);
    let ok = flush_exec(&mut stack, abs, start, n);
    proof {
        assert(abs@.subrange(0, n as int) =~= abs@);
    }
    if !ok {
        let msg = String::from_str("Path is outside of staging root: ").concat(abs);
        return Err(ErrorKind::InvalidConfiguration.error().set_context(msg));
    }
    Ok(join_exec(&stack))
}

/// A `None` normalization state stays `None` however much more of the path
/// is read.
proof fn lemma_norm_prefix_none(s: Seq<char>, from: int, to: int)
    requires
        from <= to,
        norm_prefix(s, from) is None,
    ensures
        norm_prefix(s, to) is None,
    decreases to - from,
{
    if from < to {
        lemma_norm_prefix_none(s, from, to - 1);
    }
}

/// `s` with trailing separators dropped.
pub open spec fn strip_trailing_seps(s: Seq<char>) -> Seq<char>
    decreases s.len(),
{
    if s.len() > 0 && s.last() == '/' {
        strip_trailing_seps(s.drop_last())
    } else {
        s
    }
}

/// The suffix of `s` after its last separator (`s` itself when it has none).
pub open spec fn suffix_after_last_sep(s: Seq<char>) -> Seq<char>
    decreases s.len(),
{
    if s.len() == 0 {
        s
    } else if s.last() == '/' {
        Seq::<char>::empty()
    } else {
        suffix_after_last_sep(s.drop_last()).push(s.last())
    }
}

/// The filename part of a path: the suffix after the last separator, with
/// trailing separators dropped first.
pub open spec fn spec_basename(s: Seq<char>) -> Seq<char> {
    suffix_after_last_sep(strip_trailing_seps(s))
}

/// The filename part of a path, as [`spec_basename`] describes it.
pub fn basename<'a>(path: &'a str) -> (r: &'a str)
    ensures
        r@ == spec_basename(path@),
{
    let n = path.unicode_len();
    proof {
        assert(path@.take(n as int) =~= path@);
    }
    let mut e: usize = n;
    while e > 0 && path.get_char(e - 1) == '/'
        invariant
            e <= n,
            n == path@.len(),
            strip_trailing_seps(path@) == strip_trailing_seps(path@.take(e as int)),
        decreases e,
    {
        proof {
            assert(path@.take(e as int).last() == '/');
            assert(path@.take(e as int).drop_last() =~= path@.take(e as int - 1));
        }
        e = e - 1;
    }
    proof {
        if e > 0 {
            assert(path@.take(e as int).last() != '/');
        }
        assert(strip_trailing_seps(path@) == path@.take(e as int));
    }
    let mut b: usize = e;
    while b > 0 && path.get_char(b - 1) != '/'
        invariant
            b <= e <= n,
            n == path@.len(),
            strip_trailing_seps(path@) == path@.take(e as int),
            suffix_after_last_sep(path@.take(e as int)) =~= suffix_after_last_sep(
                path@.take(b as int),
            ) + path@.subrange(b as int, e as int),
        decreases b,
    {
        proof {
            assert(path@.take(b as int).last() != '/');
            assert(path@.take(b as int).drop_last() =~= path@.take(b as int - 1));
            assert(suffix_after_last_sep(path@.take(b as int)) == suffix_after_last_sep(
                path@.take(b as int - 1),
            ).push(path@[b as int - 1]));
            assert(suffix_after_last_sep(path@.take(b as int - 1)) + path@.subrange(
                b as int - 1,
                e as int,
            ) =~= suffix_after_last_sep(path@.take(b as int - 1)).push(path@[b as int - 1])
                + path@.subrange(b as int, e as int));
        }
        b = b - 1;
    }
    proof {
        if b > 0 {
            assert(path@.take(b as int).last() == '/');
            assert(suffix_after_last_sep(path@.take(b as int)) =~= Seq::<char>::empty());
        } else {
            assert(path@.take(0).len() == 0);
        }
        assert(spec_basename(path@) =~= path@.subrange(b as int, e as int));
    }
    path.substring_char(b, e)
}

/// A bare filename: non-empty, not `.` or `..`, and free of separators.
pub open spec fn is_bare_name(s: Seq<char>) -> bool {
    &&& s.len() > 0
    &&& s != seq!['.']
    &&& s != seq!['.', '.']
    &&& forall|i: int| 0 <= i < s.len() ==> s[i] != '/'
}

/// Whether `s` is a bare filename, as [`is_bare_name`] describes it.
pub fn check_bare_name(s: &str) -> (r: bool)
    ensures
        r == is_bare_name(s@),
{
    let n = s.unicode_len();
    if n == 0 {
        return false;
    }
    if n == 1 && s.get_char(0) == '.' {
        proof {
            assert(s@ =~= seq!['.']);
        }
        return false;
    }
    if n == 2 && s.get_char(0) == '.' && s.get_char(1) == '.' {
        proof {
            assert(s@ =~= seq!['.', '.']);
        }
        return false;
    }
    let mut i: usize = 0;
    while i < n
        invariant
            i <= n,
            n == s@.len(),
            forall|j: int| 0 <= j < i ==> s@[j] != '/',
        decreases n - i,
    {
        if s.get_char(i) == '/' {
            return false;
        }
        i = i + 1;
    }
    proof {
        if s@.len() == 1 {
            assert(s@[0] != '.');
            assert(s@ != seq!['.']) by {
                assert(seq!['.'][0] == '.');
            }
        }
        if s@.len() == 2 {
            assert(s@[0] != '.' || s@[1] != '.');
            assert(s@ != seq!['.', '.']) by {
                assert(seq!['.', '.'][0] == '.' && seq!['.', '.'][1] == '.');
            }
        }
        assert(s@ != seq!['.']) by {
            assert(seq!['.'].len() == 1);
        }
        assert(s@ != seq!['.', '.']) by {
            assert(seq!['.', '.'].len() == 2);
        }
    }
    true
}

/// `dir` and `name` joined with exactly one separator between them (`name`
/// alone when `dir` is empty).
pub open spec fn spec_join_path(dir: Seq<char>, name: Seq<char>) -> Seq<char> {
    if dir.len() == 0 {
        name
    } else if dir.last() == '/' {
        dir + name
    } else {
        dir + "/"@ + name
    }
}

/// `dir` and `name` joined, as [`spec_join_path`] describes it.
pub fn join_path(dir: &str, name: &str) -> (r: String)
    ensures
        r@ == spec_join_path(dir@, name@),
{
    let n = dir.unicode_len();
    if n == 0 {
        String::from_str(name)
    } else if dir.get_char(n - 1) == '/' {
        String::from_str(dir).concat(name)
    } else {
        String::from_str(dir).concat("/").concat(name)
    }
}

/// Whether `p` is a prefix of `s`, character for character.
pub open spec fn has_prefix(s: Seq<char>, p: Seq<char>) -> bool {
    p.len() <= s.len() && s.subrange(0, p.len() as int) == p
}

/// Whether `p` is a prefix of `s`, as [`has_prefix`] describes it.
pub fn check_prefix(s: &str, p: &str) -> (r: bool)
    ensures
        r == has_prefix(s@, p@),
{
    let n = s.unicode_len();
    let m = p.unicode_len();
    if m > n {
        proof {
            assert(!has_prefix(s@, p@));
        }
        return false;
    }
    let mut i: usize = 0;
    while i < m
        invariant
            i <= m <= n,
            n == s@.len(),
            m == p@.len(),
            forall|j: int| 0 <= j < i ==> s@[j] == p@[j],
        decreases m - i,
    {
        if s.get_char(i) != p.get_char(i) {
            proof {
                assert(s@.subrange(0, p@.len() as int)[i as int] != p@[i as int]);
            }
            return false;
        }
        i = i + 1;
    }
    proof {
        assert(s@.subrange(0, p@.len() as int) =~= p@);
    }
    true
}

/// `s` with leading separators dropped.
pub open spec fn strip_leading_seps(s: Seq<char>) -> Seq<char>
    decreases s.len(),
{
    if s.len() > 0 && s[0] == '/' {
        strip_leading_seps(s.drop_first())
    } else {
        s
    }
}

/// The suffix of `s` after position `from`, with leading separators dropped:
/// how a matched path is made relative to the walked root.
pub open spec fn spec_rel_to(s: Seq<char>, from: int) -> Seq<char> {
    strip_leading_seps(s.skip(from))
}

/// The suffix of `s` after `from` with leading separators dropped, as
/// [`spec_rel_to`] describes it.
pub fn rel_to<'a>(s: &'a str, from: usize) -> (r: &'a str)
    requires
        from <= s@.len(),
    ensures
        r@ == spec_rel_to(s@, from as int),
{
    let n = s.unicode_len();
    let mut i: usize = from;
    while i < n && s.get_char(i) == '/'
        invariant
            from <= i <= n,
            n == s@.len(),
            strip_leading_seps(s@.skip(from as int)) == strip_leading_seps(s@.skip(i as int)),
        decreases n - i,
    {
        proof {
            assert(s@.skip(i as int)[0] == '/');
            assert(s@.skip(i as int).drop_first() =~= s@.skip(i as int + 1));
        }
        i = i + 1;
    }
    proof {
        let rest = s@.skip(i as int);
        if rest.len() > 0 {
            assert(rest[0] == s@[i as int]);
        }
        assert(strip_leading_seps(rest) == rest);
    }
    s.substring_char(i, n)
}

/// Running the normalization from an arbitrary state over the first `n`
/// characters of `t`.
pub open spec fn norm_run(
    st: Option<(Seq<Seq<char>>, Seq<char>)>,
    t: Seq<char>,
    n: int,
) -> Option<(Seq<Seq<char>>, Seq<char>)>
    decreases n,
{
    if n <= 0 {
        st
    } else {
        norm_step(norm_run(st, t, n - 1), t[n - 1])
    }
}

/// The starting state of a normalization: nothing retained, nothing
/// pending.
pub open spec fn norm_init() -> Option<(Seq<Seq<char>>, Seq<char>)> {
    Some((Seq::<Seq<char>>::empty(), Seq::<char>::empty()))
}

/// Normalizing a prefix of `s` is running the normalization from the
/// starting state.
proof fn lemma_norm_prefix_is_run(s: Seq<char>, n: int)
    requires
        0 <= n,
    ensures
        norm_prefix(s, n) == norm_run(norm_init(), s, n),
    decreases n,
{
    if n > 0 {
        lemma_norm_prefix_is_run(s, n - 1);
    }
}

/// A run reads only the first `n` characters of its input.
proof fn lemma_norm_run_congruent(
    st: Option<(Seq<Seq<char>>, Seq<char>)>,
    u: Seq<char>,
    v: Seq<char>,
    n: int,
)
    requires
        0 <= n <= u.len(),
        n <= v.len(),
        u.take(n) == v.take(n),
    ensures
        norm_run(st, u, n) == norm_run(st, v, n),
    decreases n,
{
    if n > 0 {
        assert(u.take(n - 1) =~= u.take(n).take(n - 1));
        assert(v.take(n - 1) =~= v.take(n).take(n - 1));
        lemma_norm_run_congruent(st, u, v, n - 1);
        assert(u[n - 1] == u.take(n)[n - 1]);
        assert(v[n - 1] == v.take(n)[n - 1]);
    }
}

/// A run over a concatenation splits at the boundary.
proof fn lemma_norm_run_append(
    st: Option<(Seq<Seq<char>>, Seq<char>)>,
    a: Seq<char>,
    b: Seq<char>,
    n: int,
)
    requires
        0 <= n <= b.len(),
    ensures
        norm_run(st, a + b, a.len() + n) == norm_run(norm_run(st, a, a.len() as int), b, n),
    decreases n,
{
    if n == 0 {
        assert((a + b).take(a.len() as int) =~= a.take(a.len() as int));
        lemma_norm_run_congruent(st, a + b, a, a.len() as int);
    } else {
        lemma_norm_run_append(st, a, b, n - 1);
        assert((a + b)[a.len() + n - 1] == b[n - 1]);
    }
}

/// Running a separator-free word from a state with nothing pending leaves
/// the retained components alone and accumulates the word.
proof fn lemma_norm_run_word(stack: Seq<Seq<char>>, w: Seq<char>, n: int)
    requires
        0 <= n <= w.len(),
        forall|i: int| 0 <= i < w.len() ==> w[i] != '/',
    ensures
        norm_run(Some((stack, Seq::<char>::empty())), w, n) == Some((stack, w.take(n))),
    decreases n,
{
    if n > 0 {
        lemma_norm_run_word(stack, w, n - 1);
        assert(w.take(n) =~= w.take(n - 1).push(w[n - 1]));
    } else {
        assert(w.take(0) =~= Seq::<char>::empty());
    }
}

/// Running the join of bare components from a state with nothing pending
/// retains all but the last and leaves the last pending.
proof fn lemma_norm_run_join(stack: Seq<Seq<char>>, parts: Seq<Seq<char>>)
    requires
        parts.len() > 0,
        forall|i: int| 0 <= i < parts.len() ==> is_bare_name(parts[i]),
    ensures
        norm_run(
            Some((stack, Seq::<char>::empty())),
            join_components(parts),
            join_components(parts).len() as int,
        ) == Some((stack + parts.drop_last(), parts.last())),
    decreases parts.len(),
{
    let st0 = Some((stack, Seq::<char>::empty()));
    if parts.len() == 1 {
        assert(is_bare_name(parts[0]));
        lemma_norm_run_word(stack, parts[0], parts[0].len() as int);
        assert(parts[0].take(parts[0].len() as int) =~= parts[0]);
        assert(stack + parts.drop_last() =~= stack);
        assert(parts.last() == parts[0]);
    } else {
        reveal_strlit("/");
        let dl = parts.drop_last();
        let w = parts.last();
        let j1 = join_components(dl);
        let b = "/"@ + w;
        assert(join_components(parts) =~= j1 + b);
        lemma_norm_run_join(stack, dl);
        lemma_norm_run_append(st0, j1, b, b.len() as int);
        assert(norm_run(st0, join_components(parts), join_components(parts).len() as int)
            == norm_run(norm_run(st0, j1, j1.len() as int), b, b.len() as int)) by {
            lemma_norm_run_congruent(
                st0,
                join_components(parts),
                j1 + b,
                join_components(parts).len() as int,
            );
        }
        let mid = Some((stack + dl.drop_last(), dl.last()));
        assert(norm_run(st0, j1, j1.len() as int) == mid);
        let after_sep = norm_run(mid, b, 1);
        assert(norm_run(mid, b, 0) == mid);
        assert(b[0] == '/');
        assert(is_bare_name(dl.last())) by {
            assert(dl[dl.len() - 1] == parts[parts.len() - 2]);
        }
        assert(dl.last().len() > 0);
        assert(after_sep == Some(((stack + dl.drop_last()).push(dl.last()), Seq::<char>::empty())));
        assert((stack + dl.drop_last()).push(dl.last()) =~= stack + dl);
        let bw = b.skip(1);
        assert(bw =~= w);
        assert(b =~= "/"@ + bw);
        lemma_norm_run_append(mid, "/"@, bw, bw.len() as int);
        assert(norm_run(mid, "/"@, 1) == after_sep) by {
            assert(b.take(1) =~= "/"@.take(1));
            lemma_norm_run_congruent(mid, b, "/"@, 1);
        }
        assert(is_bare_name(w));
        lemma_norm_run_word(stack + dl, w, w.len() as int);
        assert(w.take(w.len() as int) =~= w);
        assert(norm_run(mid, b, b.len() as int) == Some((stack + dl, w))) by {
            lemma_norm_run_congruent(mid, b, "/"@ + bw, b.len() as int);
        }
        assert(stack + dl == stack + parts.drop_last());
    }
}

/// Every component a successful normalization retains is a bare filename,
/// and the pending component never holds a separator.
proof fn lemma_norm_prefix_bare(s: Seq<char>, n: int)
    requires
        0 <= n <= s.len(),
    ensures
        norm_prefix(s, n) matches Some(st) ==> (forall|i: int|
            0 <= i < st.0.len() ==> is_bare_name(st.0[i])) && (forall|i: int|
            0 <= i < st.1.len() ==> st.1[i] != '/'),
    decreases n,
{
    if n > 0 {
        lemma_norm_prefix_bare(s, n - 1);
    }
}

/// Every component of a normalized path is a bare filename.
proof fn lemma_normal_components_bare(s: Seq<char>)
    ensures
        normal_components(s) matches Some(parts) ==> forall|i: int|
            0 <= i < parts.len() ==> is_bare_name(parts[i]),
{
    lemma_norm_prefix_bare(s, s.len() as int);
}

/// Normalization is idempotent: re-prefixing a normalized root-relative
/// path with the root separator and normalizing it again returns the path
/// unchanged.  With determinism, which the contracts state by being
/// functions of the input alone, this pins the normal form down.
pub proof fn lemma_abs_to_rel_idempotent(s: Seq<char>, r: Seq<char>)
    requires
        abs_to_rel_spec(s) == Some(r),
    ensures
        abs_to_rel_spec("/"@ + r) == Some(r),
{
    reveal_strlit("/");
    let parts = normal_components(s)->0;
    assert(r == join_components(parts));
    lemma_normal_components_bare(s);
    let u = "/"@ + r;
    assert(u.len() == 1 + r.len());
    assert(u[0] == '/');
    assert(is_absolute(u));
    lemma_norm_prefix_is_run(u, u.len() as int);
    lemma_norm_run_append(norm_init(), "/"@, r, r.len() as int);
    assert(norm_run(norm_init(), u, u.len() as int) == norm_run(
        norm_run(norm_init(), "/"@, 1),
        r,
        r.len() as int,
    )) by {
        lemma_norm_run_congruent(norm_init(), u, "/"@ + r, u.len() as int);
    }
    assert(norm_run(norm_init(), "/"@, 0) == norm_init());
    assert(norm_run(norm_init(), "/"@, 1) == norm_init());
    if parts.len() == 0 {
        assert(r =~= Seq::<char>::empty());
        assert(norm_run(norm_init(), r, 0) == norm_init());
        assert(norm_prefix(u, u.len() as int) == norm_init());
        assert(flush_component(Seq::<Seq<char>>::empty(), Seq::<char>::empty()) == Some(
            Seq::<Seq<char>>::empty(),
        ));
        assert(normal_components(u) == Some(Seq::<Seq<char>>::empty()));
        assert(join_components(Seq::<Seq<char>>::empty()) =~= Seq::<char>::empty());
        assert(abs_to_rel_spec(u) == Some(join_components(Seq::<Seq<char>>::empty())));
    } else {
        lemma_norm_run_join(Seq::<Seq<char>>::empty(), parts);
        assert(Seq::<Seq<char>>::empty() + parts.drop_last() =~= parts.drop_last());
        assert(norm_run(norm_init(), r, r.len() as int) == Some(
            (parts.drop_last(), parts.last()),
        ));
        assert(is_bare_name(parts.last()));
        assert(flush_component(parts.drop_last(), parts.last()) == Some(
            parts.drop_last().push(parts.last()),
        ));
        assert(parts.drop_last().push(parts.last()) =~= parts);
        assert(normal_components(u) == Some(parts));
    }
}

/// A join of components starts with the first component's first character.
proof fn lemma_join_head(parts: Seq<Seq<char>>)
    requires
        parts.len() > 0,
        parts[0].len() > 0,
    ensures
        join_components(parts).len() > 0,
        join_components(parts)[0] == parts[0][0],
    decreases parts.len(),
{
    if parts.len() > 1 {
        assert(parts.drop_last()[0] == parts[0]);
        lemma_join_head(parts.drop_last());
    }
}

/// The sandbox confines its result: a normalized path is built only of
/// bare filename components — never empty, never `.` or `..`, never
/// holding a separator — joined by single separators, and is itself
/// relative.  Joined under a staging root, it cannot climb out of it.
pub proof fn lemma_abs_to_rel_confined(s: Seq<char>, r: Seq<char>)
    requires
        abs_to_rel_spec(s) == Some(r),
    ensures
        normal_components(s) is Some,
        r == join_components(normal_components(s)->0),
        forall|i: int|
            0 <= i < normal_components(s)->0.len() ==> is_bare_name(normal_components(s)->0[i]),
        !is_absolute(r),
{
    lemma_normal_components_bare(s);
    let parts = normal_components(s)->0;
    if parts.len() > 0 {
        assert(is_bare_name(parts[0]));
        lemma_join_head(parts);
        assert(r[0] == parts[0][0]);
        assert(parts[0][0] != '/');
    }
}

} // verus!

