//! Lexical path sanitization. A component-supplied path is accepted only if
//! it is relative under either host convention (no leading slash, no
//! backslash, no drive designator) and free of parent-directory segments and
//! empty segments; current-directory segments are dropped and the survivors
//! are joined with `/`. Rejection is purely lexical: no filesystem call is
//! involved, so traversal attempts are stopped before any provider is
//! consulted.

use vstd::prelude::*;

verus! {

/// The segments of `s`, split on `/`. A string with no separator is one
/// segment; each separator starts a new (possibly empty) segment, so the
/// result always holds at least one segment and doubled or trailing
/// separators show up as empty segments.
pub open spec fn split_slash(s: Seq<char>) -> Seq<Seq<char>>
    decreases s.len(),
{
    if s.len() == 0 {
        seq![Seq::<char>::empty()]
    } else if s[0] == '/' {
        seq![Seq::<char>::empty()] + split_slash(s.drop_first())
    } else {
        let rest = split_slash(s.drop_first());
        seq![seq![s[0]] + rest[0]] + rest.drop_first()
    }
}

pub proof fn lemma_split_slash_len(s: Seq<char>)
    ensures
        split_slash(s).len() >= 1,
    decreases s.len(),
{
    if s.len() > 0 {
        lemma_split_slash_len(s.drop_first());
    }
}

/// How one more character extends the segments of `s`: a separator opens a
/// new empty segment; any other character extends the last segment.
pub proof fn lemma_split_slash_push(s: Seq<char>, c: char)
    ensures
        c == '/' ==> split_slash(s.push(c)) =~~= split_slash(s).push(Seq::<char>::empty()),
        c != '/' ==> split_slash(s.push(c)) =~~= split_slash(s).update(
            split_slash(s).len() - 1,
            split_slash(s).last().push(c),
        ),
    decreases s.len(),
{
    lemma_split_slash_len(s);
    let t = s.push(c);
    if s.len() == 0 {
        assert(t.len() == 1);
        assert(t[0] == c);
        assert(t.drop_first() =~= Seq::<char>::empty());
        assert(split_slash(Seq::<char>::empty()) == seq![Seq::<char>::empty()]);
        assert(split_slash(s) == seq![Seq::<char>::empty()]);
        if c == '/' {
            assert(split_slash(t) =~~= seq![Seq::<char>::empty(), Seq::<char>::empty()]);
            assert(split_slash(s).push(Seq::<char>::empty()) =~~= seq![
                Seq::<char>::empty(),
                Seq::<char>::empty(),
            ]);
        } else {
            assert(split_slash(t) =~~= seq![seq![c]]);
            assert(split_slash(s).update(0, split_slash(s).last().push(c)) =~~= seq![seq![c]]);
        }
    } else {
        assert(t[0] == s[0]);
        assert(t.drop_first() =~= s.drop_first().push(c));
        lemma_split_slash_push(s.drop_first(), c);
        lemma_split_slash_len(s.drop_first());
        let r = split_slash(s.drop_first());
        let rp = split_slash(s.drop_first().push(c));
        if s[0] == '/' {
            assert(split_slash(s) == seq![Seq::<char>::empty()] + r);
            assert(split_slash(t) == seq![Seq::<char>::empty()] + rp);
            if c == '/' {
                assert(seq![Seq::<char>::empty()] + r.push(Seq::<char>::empty()) =~~= (seq![
                    Seq::<char>::empty(),
                ] + r).push(Seq::<char>::empty()));
            } else {
                assert(seq![Seq::<char>::empty()] + r.update(r.len() - 1, r.last().push(c)) =~~= (
                seq![Seq::<char>::empty()] + r).update(r.len() as int, r.last().push(c)));
                assert((seq![Seq::<char>::empty()] + r).last() == r.last());
            }
        } else {
            assert(split_slash(s) == seq![seq![s[0]] + r[0]] + r.drop_first());
            assert(split_slash(t) == seq![seq![s[0]] + rp[0]] + rp.drop_first());
            if c == '/' {
                assert(rp[0] == r[0]);
                assert(rp.drop_first() =~~= r.drop_first().push(Seq::<char>::empty()));
                assert(seq![seq![s[0]] + r[0]] + r.drop_first().push(Seq::<char>::empty()) =~~= (
                seq![seq![s[0]] + r[0]] + r.drop_first()).push(Seq::<char>::empty()));
            } else {
                if r.len() == 1 {
                    assert(rp[0] == r[0].push(c));
                    assert(rp.drop_first() =~~= Seq::<Seq<char>>::empty());
                    assert(seq![s[0]] + r[0].push(c) =~= (seq![s[0]] + r[0]).push(c));
                    assert(split_slash(s) =~~= seq![seq![s[0]] + r[0]]);
                    assert(split_slash(t) =~~= split_slash(s).update(
                        0,
                        split_slash(s).last().push(c),
                    ));
                } else {
                    assert(rp[0] == r[0]);
                    assert(rp.drop_first() =~~= r.drop_first().update(
                        r.len() - 2,
                        r.last().push(c),
                    ));
                    assert(split_slash(s).last() == r.last());
                    assert(seq![seq![s[0]] + r[0]] + r.drop_first().update(
                        r.len() - 2,
                        r.last().push(c),
                    ) =~~= (seq![seq![s[0]] + r[0]] + r.drop_first()).update(
                        r.len() - 1,
                        r.last().push(c),
                    ));
                }
            }
        }
    }
}

/// A segment that the sanitizer accepts: non-empty, not the parent-directory
/// marker, and free of the backslash that a Windows host would read as a
/// separator inside it.
pub open spec fn seg_allowed(seg: Seq<char>) -> bool {
    seg.len() > 0 && seg != seq!['.', '.'] && (forall|i: int|
        0 <= i < seg.len() ==> seg[i] != '\\')
}

/// An ASCII letter, as a drive designator requires.
pub open spec fn is_ascii_letter(c: char) -> bool {
    (('a' as u32) <= (c as u32) && (c as u32) <= ('z' as u32)) || (('A' as u32) <= (c as u32) && (
    c as u32) <= ('Z' as u32))
}

/// A segment that begins with a drive designator (a letter and a colon),
/// which a Windows host would read as leaving the workspace when joined.
pub open spec fn drive_prefixed(seg: Seq<char>) -> bool {
    seg.len() >= 2 && is_ascii_letter(seg[0]) && seg[1] == ':'
}

/// The segments that survive normalization: everything but the
/// current-directory marker.
pub open spec fn kept_segments(parts: Seq<Seq<char>>) -> Seq<Seq<char>> {
    parts.filter(|seg: Seq<char>| seg != seq!['.'])
}

/// Joins segments with a single `/` between each pair.
pub open spec fn join_slash(parts: Seq<Seq<char>>) -> Seq<char>
    decreases parts.len(),
{
    if parts.len() == 0 {
        Seq::<char>::empty()
    } else if parts.len() == 1 {
        parts[0]
    } else {
        parts[0] + seq!['/'] + join_slash(parts.drop_first())
    }
}

pub proof fn lemma_join_slash_push(parts: Seq<Seq<char>>, seg: Seq<char>)
    ensures
        parts.len() == 0 ==> join_slash(parts.push(seg)) == seg,
        parts.len() > 0 ==> join_slash(parts.push(seg)) =~= join_slash(parts) + seq!['/'] + seg,
    decreases parts.len(),
{
    if parts.len() == 0 {
        assert(parts.push(seg)[0] == seg);
    } else if parts.len() == 1 {
        assert(parts.push(seg).drop_first() =~~= seq![seg]);
        assert(join_slash(seq![seg]) == seg);
        assert(parts.push(seg)[0] == parts[0]);
        assert(join_slash(parts) == parts[0]);
    } else {
        assert(parts.push(seg).drop_first() =~~= parts.drop_first().push(seg));
        lemma_join_slash_push(parts.drop_first(), seg);
        assert(parts.push(seg)[0] == parts[0]);
        assert(join_slash(parts.push(seg)) == parts[0] + seq!['/'] + join_slash(
            parts.drop_first().push(seg),
        ));
        assert(parts[0] + seq!['/'] + (join_slash(parts.drop_first()) + seq!['/'] + seg) =~= (
        parts[0] + seq!['/'] + join_slash(parts.drop_first())) + seq!['/'] + seg);
    }
}

/// What sanitization returns: the root for the empty path; otherwise, if
/// every segment is non-empty, none names the parent directory, none holds a
/// backslash, and the surviving segments do not begin with a drive
/// designator, those surviving segments joined with `/`; otherwise rejection.
pub open spec fn sanitize_spec(s: Seq<char>) -> Option<Seq<char>> {
    if s.len() == 0 {
        Some(Seq::<char>::empty())
    } else {
        let kept = kept_segments(split_slash(s));
        if (forall|i: int|
            0 <= i < split_slash(s).len() ==> seg_allowed(#[trigger] split_slash(s)[i])) && (
        kept.len() == 0 || !drive_prefixed(kept[0])) {
            Some(join_slash(kept))
        } else {
            None
        }
    }
}

/// An absolute or drive-qualified path prefix under either host convention:
/// a leading slash or backslash, or a leading drive designator.
pub open spec fn is_absolute_path(s: Seq<char>) -> bool {
    s.len() > 0 && (s[0] == '/' || s[0] == '\\' || (s.len() >= 2 && is_ascii_letter(s[0]) && s[1]
        == ':'))
}

/// Some segment of `s` names the parent directory.
pub open spec fn has_parent_segment(s: Seq<char>) -> bool {
    exists|i: int|
        0 <= i < split_slash(s).len() && #[trigger] split_slash(s)[i] == seq!['.', '.']
}

/// Dropped current-directory markers distribute over concatenation.
proof fn lemma_kept_distributes(a: Seq<Seq<char>>, b: Seq<Seq<char>>)
    ensures
        kept_segments(a + b) =~~= kept_segments(a) + kept_segments(b),
    decreases b.len(),
{
    reveal(Seq::filter);
    if b.len() == 0 {
        assert(a + b =~~= a);
        assert(kept_segments(b) =~~= Seq::<Seq<char>>::empty());
    } else {
        lemma_kept_distributes(a, b.drop_last());
        assert((a + b).drop_last() =~~= a + b.drop_last());
        assert((a + b).last() == b.last());
        if b.last() != seq!['.'] {
            assert((kept_segments(a) + kept_segments(b.drop_last())).push(b.last()) =~~=
            kept_segments(a) + kept_segments(b.drop_last()).push(b.last()));
        }
    }
}

/// When the first segment survives, it is the first surviving segment.
proof fn lemma_kept_first(parts: Seq<Seq<char>>)
    requires
        parts.len() > 0,
        parts[0] != seq!['.'],
    ensures
        kept_segments(parts).len() > 0,
        kept_segments(parts)[0] == parts[0],
{
    reveal(Seq::filter);
    assert(parts =~~= seq![parts[0]] + parts.drop_first());
    lemma_kept_distributes(seq![parts[0]], parts.drop_first());
    assert(seq![parts[0]].drop_last() =~~= Seq::<Seq<char>>::empty());
    assert(kept_segments(Seq::<Seq<char>>::empty()) =~~= Seq::<Seq<char>>::empty());
    assert(seq![parts[0]].last() == parts[0]);
    assert(kept_segments(seq![parts[0]]) =~~= seq![parts[0]]);
}

/// Every surviving segment is one of the original segments, and none is the
/// current-directory marker.
proof fn lemma_kept_elements(parts: Seq<Seq<char>>)
    ensures
        forall|i: int|
            0 <= i < kept_segments(parts).len() ==> #[trigger] kept_segments(parts)[i] != seq![
                '.',
            ] && exists|j: int| 0 <= j < parts.len() && parts[j] == kept_segments(parts)[i],
    decreases parts.len(),
{
    reveal(Seq::filter);
    if parts.len() > 0 {
        lemma_kept_elements(parts.drop_last());
        let sub = kept_segments(parts.drop_last());
        assert forall|i: int|
            0 <= i < kept_segments(parts).len() implies #[trigger] kept_segments(parts)[i]
            != seq!['.'] && exists|j: int|
            0 <= j < parts.len() && parts[j] == kept_segments(parts)[i] by {
            if i < sub.len() {
                assert(kept_segments(parts)[i] == sub[i]);
                let j = choose|j: int| 0 <= j < parts.drop_last().len() && parts.drop_last()[j]
                    == sub[i];
                assert(parts[j] == kept_segments(parts)[i]);
            } else {
                assert(kept_segments(parts)[i] == parts.last());
                assert(parts[parts.len() - 1] == kept_segments(parts)[i]);
            }
        }
    }
}

/// No segment holds the separator.
proof fn lemma_split_slash_no_sep(s: Seq<char>)
    ensures
        forall|i: int, k: int|
            0 <= i < split_slash(s).len() && 0 <= k < split_slash(s)[i].len()
                ==> #[trigger] split_slash(s)[i][k] != '/',
    decreases s.len(),
{
    if s.len() > 0 {
        lemma_split_slash_no_sep(s.drop_first());
        lemma_split_slash_len(s.drop_first());
        let r = split_slash(s.drop_first());
        assert forall|i: int, k: int|
            0 <= i < split_slash(s).len() && 0 <= k < split_slash(s)[i].len() implies #[trigger]
        split_slash(s)[i][k] != '/' by {
            if s[0] == '/' {
                if i > 0 {
                    assert(split_slash(s)[i] == r[i - 1]);
                }
            } else {
                if i == 0 {
                    assert(split_slash(s)[0] == seq![s[0]] + r[0]);
                    if k > 0 {
                        assert(split_slash(s)[0][k] == r[0][k - 1]);
                    }
                } else {
                    assert(split_slash(s)[i] == r.drop_first()[i - 1]);
                    assert(r.drop_first()[i - 1] == r[i]);
                }
            }
        }
    }
}

/// Splitting a separator-free string yields that one segment.
proof fn lemma_split_slash_whole(s: Seq<char>)
    requires
        forall|k: int| 0 <= k < s.len() ==> s[k] != '/',
    ensures
        split_slash(s) =~~= seq![s],
    decreases s.len(),
{
    if s.len() == 0 {
        assert(Seq::<char>::empty() =~= s);
    } else {
        assert(s[0] != '/');
        lemma_split_slash_whole(s.drop_first());
        assert(seq![s[0]] + s.drop_first() =~= s);
    }
}

/// Splitting `seg + / + t` peels `seg` off the front.
proof fn lemma_split_slash_append(seg: Seq<char>, t: Seq<char>)
    requires
        forall|k: int| 0 <= k < seg.len() ==> seg[k] != '/',
    ensures
        split_slash(seg + seq!['/'] + t) =~~= seq![seg] + split_slash(t),
    decreases seg.len(),
{
    let u = seg + seq!['/'] + t;
    if seg.len() == 0 {
        assert(u[0] == '/');
        assert(u.drop_first() =~= t);
        assert(seg =~= Seq::<char>::empty());
    } else {
        assert(u[0] == seg[0]);
        assert(u.drop_first() =~= seg.drop_first() + seq!['/'] + t);
        lemma_split_slash_append(seg.drop_first(), t);
        lemma_split_slash_len(t);
        let r = seq![seg.drop_first()] + split_slash(t);
        assert(split_slash(u.drop_first()) == r);
        assert(r[0] == seg.drop_first());
        assert(seq![seg[0]] + seg.drop_first() =~= seg);
        assert(r.drop_first() =~~= split_slash(t));
    }
}

/// Splitting a join of separator-free segments recovers the segments.
proof fn lemma_split_join(parts: Seq<Seq<char>>)
    requires
        parts.len() > 0,
        forall|i: int, k: int|
            0 <= i < parts.len() && 0 <= k < parts[i].len() ==> #[trigger] parts[i][k] != '/',
    ensures
        split_slash(join_slash(parts)) =~~= parts,
    decreases parts.len(),
{
    if parts.len() == 1 {
        lemma_split_slash_whole(parts[0]);
        assert(seq![parts[0]] =~~= parts);
    } else {
        assert forall|i: int, k: int|
            0 <= i < parts.drop_first().len() && 0 <= k < parts.drop_first()[i].len()
            implies #[trigger] parts.drop_first()[i][k] != '/' by {
            assert(parts.drop_first()[i] == parts[i + 1]);
        }
        lemma_split_join(parts.drop_first());
        lemma_split_slash_append(parts[0], join_slash(parts.drop_first()));
        assert(seq![parts[0]] + parts.drop_first() =~~= parts);
    }
}

/// The sanitizer's output itself satisfies the sanitized-path guarantee: it
/// is relative (no leading slash, backslash or drive designator), and
/// splitting it back up yields only allowed segments, none of which is the
/// current-directory marker.
pub proof fn lemma_sanitized_path_invariant(s: Seq<char>, out: Seq<char>)
    requires
        sanitize_spec(s) == Some(out),
    ensures
        !is_absolute_path(out),
        out.len() > 0 ==> forall|i: int|
            0 <= i < split_slash(out).len() ==> seg_allowed(#[trigger] split_slash(out)[i])
                && split_slash(out)[i] != seq!['.'],
{
    if s.len() == 0 {
        assert(out.len() == 0);
    } else {
        let parts = split_slash(s);
        let kept = kept_segments(parts);
        assert(forall|i: int| 0 <= i < parts.len() ==> seg_allowed(#[trigger] parts[i]));
        assert(kept.len() == 0 || !drive_prefixed(kept[0]));
        assert(out == join_slash(kept));
        lemma_kept_elements(parts);
        lemma_split_slash_no_sep(s);
        assert forall|i: int| 0 <= i < kept.len() implies seg_allowed(#[trigger] kept[i])
            && kept[i] != seq!['.'] && (forall|k: int|
            0 <= k < kept[i].len() ==> kept[i][k] != '/') by {
            let j = choose|j: int| 0 <= j < parts.len() && parts[j] == kept[i];
            assert(seg_allowed(parts[j]));
            assert(forall|k: int| 0 <= k < parts[j].len() ==> #[trigger] parts[j][k] != '/');
        }
        if kept.len() == 0 {
            assert(out =~= Seq::<char>::empty());
        } else {
            lemma_split_join(kept);
            assert(kept[0].len() > 0);
            if kept.len() == 1 {
                assert(out == kept[0]);
            } else {
                assert(out == kept[0] + seq!['/'] + join_slash(kept.drop_first()));
                assert(out[0] == kept[0][0]);
                if kept[0].len() >= 2 {
                    assert(out[1] == kept[0][1]);
                } else {
                    assert(out[1] == '/');
                }
            }
            assert(out[0] == kept[0][0]);
            assert(out[0] != '/');
            assert(out[0] != '\\');
            assert(!drive_prefixed(kept[0]));
            if out.len() >= 2 && is_ascii_letter(out[0]) && out[1] == ':' {
                assert(kept[0].len() >= 2 ==> out[1] == kept[0][1]);
                assert(false);
            }
        }
    }
}

/// Every input with an absolute-path prefix or a parent-directory segment is
/// rejected by the sanitizer.
pub proof fn lemma_sanitize_rejects_escape(s: Seq<char>)
    requires
        is_absolute_path(s) || has_parent_segment(s),
    ensures
        sanitize_spec(s) is None,
{
    lemma_split_slash_len(s);
    if s.len() > 0 && s[0] == '/' {
        assert(split_slash(s)[0] == Seq::<char>::empty());
        assert(!seg_allowed(split_slash(s)[0]));
    } else if s.len() > 0 && s[0] == '\\' {
        lemma_split_slash_len(s.drop_first());
        let r = split_slash(s.drop_first());
        assert(split_slash(s)[0] == seq![s[0]] + r[0]);
        assert(split_slash(s)[0][0] == '\\');
        assert(!seg_allowed(split_slash(s)[0]));
    } else if s.len() >= 2 && is_ascii_letter(s[0]) && s[1] == ':' {
        assert(s[0] != '/');
        lemma_split_slash_len(s.drop_first());
        let r = split_slash(s.drop_first());
        let first = split_slash(s)[0];
        assert(first == seq![s[0]] + r[0]);
        assert(first[0] == s[0]);
        assert(s.drop_first().len() > 0);
        assert(s.drop_first()[0] == s[1]);
        lemma_split_slash_len(s.drop_first().drop_first());
        let r2 = split_slash(s.drop_first().drop_first());
        assert(r[0] == seq![s[1]] + r2[0]);
        assert(first[1] == s[1]);
        assert(drive_prefixed(first));
        assert(first != seq!['.']) by {
            if first == seq!['.'] {
                assert(first[0] == '.');
            }
        }
        lemma_kept_first(split_slash(s));
        assert(drive_prefixed(kept_segments(split_slash(s))[0]));
    } else {
        let i = choose|i: int|
            0 <= i < split_slash(s).len() && #[trigger] split_slash(s)[i] == seq!['.', '.'];
        assert(!seg_allowed(split_slash(s)[i]));
        if s.len() == 0 {
            assert(split_slash(s)[i] =~= Seq::<char>::empty());
        }
    }
}

/// Splits `path` on `/` into owned segments.
fn split_segments(path: &str) -> (parts: Vec<String>)
    ensures
        parts@.map_values(|t: String| t@) =~~= split_slash(path@),
{
    let n: usize = path.unicode_len();
    let mut parts: Vec<String> = Vec::new();
    let mut cur = String::new();
    let mut i: usize = 0;
    proof {
        assert(path@.take(0) =~= Seq::<char>::empty());
    }
    while i < n
        invariant
            i <= n,
            n == path@.len(),
            parts@.map_values(|t: String| t@).push(cur@) =~~= split_slash(path@.take(i as int)),
        decreases n - i,
    {
        let c = path.get_char(i);
        proof {
            lemma_split_slash_push(path@.take(i as int), c);
            assert(path@.take(i as int).push(c) =~= path@.take(i as int + 1));
            lemma_split_slash_len(path@.take(i as int));
        }
        if c == '/' {
            let ghost prev_parts = parts@;
            let ghost prev_cur = cur@;
            parts.push(cur);
            cur = String::new();
            proof {
                assert(parts@.map_values(|t: String| t@) =~~= prev_parts.map_values(
                    |t: String| t@,
                ).push(prev_cur));
            }
        } else {
            let piece = path.substring_char(i, i + 1);
            proof {
                assert(piece@ =~= seq![path@[i as int]]);
            }
            cur.append(piece);
            proof {
                let m = parts@.map_values(|t: String| t@);
                let old_split = split_slash(path@.take(i as int));
                assert(m.push(cur@) =~~= old_split.update(old_split.len() - 1, old_split.last().push(c)));
            }
        }
        i = i + 1;
    }
    proof {
        assert(path@.take(n as int) =~= path@);
    }
    let ghost prev_parts = parts@;
    let ghost prev_cur = cur@;
    parts.push(cur);
    proof {
        assert(parts@.map_values(|t: String| t@) =~~= prev_parts.map_values(
            |t: String| t@,
        ).push(prev_cur));
    }
    parts
}

/// Whether any character of `seg` is a backslash.
fn contains_backslash(seg: &str) -> (b: bool)
    ensures
        b == exists|i: int| 0 <= i < seg@.len() && #[trigger] seg@[i] == '\\',
{
    let n: usize = seg.unicode_len();
    let mut i: usize = 0;
    while i < n
        invariant
            i <= n,
            n == seg@.len(),
            forall|k: int| 0 <= k < i ==> seg@[k] != '\\',
        decreases n - i,
    {
        if seg.get_char(i) == '\\' {
            return true;
        }
        i = i + 1;
    }
    false
}

/// Normalizes and validates a component-supplied relative path. Accepts the
/// empty path as the workspace root, drops `.` segments, and rejects absolute
/// or drive-qualified paths, parent-directory segments, empty segments and
/// segments holding a backslash; the result joins the surviving segments
/// with `/`.
pub fn sanitize_rel_path(path: &str) -> (r: Option<String>)
    ensures
        r is Some <==> sanitize_spec(path@) is Some,
        r matches Some(out) ==> Some(out@) == sanitize_spec(path@),
{
    if path.unicode_len() == 0 {
        return Some(String::new());
    }
    let parts = split_segments(path);
    let ghost pv = parts@.map_values(|t: String| t@);
    let m: usize = parts.len();
    let mut out = String::new();
    let mut first = true;
    let mut j: usize = 0;
    proof {
        assert(pv.take(0) =~~= Seq::<Seq<char>>::empty());
        reveal(Seq::filter);
        assert(kept_segments(pv.take(0)) =~~= Seq::<Seq<char>>::empty());
    }
    while j < m
        invariant
            j <= m,
            m == parts@.len(),
            pv == parts@.map_values(|t: String| t@),
            pv =~~= split_slash(path@),
            path@.len() > 0,
            forall|k: int| 0 <= k < j ==> seg_allowed(#[trigger] pv[k]),
            out@ == join_slash(kept_segments(pv.take(j as int))),
            first == (kept_segments(pv.take(j as int)).len() == 0),
            kept_segments(pv.take(j as int)).len() > 0 ==> !drive_prefixed(
                kept_segments(pv.take(j as int))[0],
            ),
        decreases m - j,
    {
        let seg: &String = &parts[j];
        proof {
            assert(seg@ == pv[j as int]);
        }
        let slen: usize = seg.as_str().unicode_len();
        if slen == 0 {
            proof {
                assert(!seg_allowed(pv[j as int]));
            }
            return None;
        }
        if slen == 2 && seg.as_str().get_char(0) == '.' && seg.as_str().get_char(1) == '.' {
            proof {
                assert(seg@ =~= seq!['.', '.']);
                assert(!seg_allowed(pv[j as int]));
            }
            return None;
        }
        if contains_backslash(seg.as_str()) {
            proof {
                assert(!seg_allowed(pv[j as int]));
            }
            return None;
        }
        proof {
            assert(seg@ != seq!['.', '.']) by {
                if seg@ == seq!['.', '.'] {
                    assert(seg@.len() == 2);
                    assert(seg@[0] == '.' && seg@[1] == '.');
                }
            }
            assert(seg_allowed(pv[j as int]));
            assert(pv.take(j as int + 1).drop_last() =~~= pv.take(j as int));
            assert(pv.take(j as int + 1).last() == pv[j as int]);
            reveal(Seq::filter);
        }
        if slen == 1 && seg.as_str().get_char(0) == '.' {
            proof {
                assert(seg@ =~= seq!['.']);
                assert(kept_segments(pv.take(j as int + 1)) =~~= kept_segments(
                    pv.take(j as int),
                ));
            }
        } else {
            proof {
                assert(seg@ != seq!['.']) by {
                    if seg@ == seq!['.'] {
                        assert(seg@.len() == 1);
                        assert(seg@[0] == '.');
                    }
                }
                assert(kept_segments(pv.take(j as int + 1)) =~~= kept_segments(
                    pv.take(j as int),
                ).push(seg@));
                lemma_join_slash_push(kept_segments(pv.take(j as int)), seg@);
                if kept_segments(pv.take(j as int)).len() > 0 {
                    assert(kept_segments(pv.take(j as int + 1))[0] == kept_segments(
                        pv.take(j as int),
                    )[0]);
                }
            }
            if first {
                let mut drive = false;
                if slen >= 2 {
                    if seg.as_str().get_char(1) == ':' {
                        let c0u: u32 = seg.as_str().get_char(0) as u32;
                        if (97 <= c0u && c0u <= 122) || (65 <= c0u && c0u <= 90) {
                            drive = true;
                        }
                    }
                }
                if drive {
                    proof {
                        assert(is_ascii_letter(seg@[0]));
                        assert(drive_prefixed(seg@));
                        assert(kept_segments(pv.take(j as int + 1)) =~~= seq![seg@]);
                        lemma_kept_distributes(pv.take(j as int + 1), pv.skip(j as int + 1));
                        assert(pv.take(j as int + 1) + pv.skip(j as int + 1) =~~= pv);
                        assert(kept_segments(pv).len() > 0);
                        assert(kept_segments(pv)[0] == seg@);
                        assert(drive_prefixed(kept_segments(split_slash(path@))[0]));
                    }
                    return None;
                }
                proof {
                    assert(!drive_prefixed(seg@));
                    reveal_strlit("/");
                }
                out.append(seg.as_str());
                first = false;
            } else {
                proof {
                    reveal_strlit("/");
                    assert("/"@ =~= seq!['/']);
                }
                out.append("/");
                out.append(seg.as_str());
            }
        }
        j = j + 1;
    }
    proof {
        assert(pv.take(m as int) =~~= pv);
        lemma_split_slash_len(path@);
        assert(forall|i: int|
            0 <= i < split_slash(path@).len() ==> seg_allowed(#[trigger] split_slash(path@)[i]));
        assert(kept_segments(split_slash(path@)).len() == 0 || !drive_prefixed(
            kept_segments(split_slash(path@))[0],
        ));
    }
    Some(out)
}

} // verus!
