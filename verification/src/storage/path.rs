//! Canonicalization of runtime paths against a process-owned working directory.
use vstd::prelude::*;

use super::StorageError;
use vstd::string::StringSliceAdditionalSpecFns;

verus! {

pub const MAX_PATH_COMPONENTS: usize = 64;

/// The rendering of a component stack: `/` followed by the components joined by `/`.
pub open spec fn rendered(stack: Seq<Seq<u8>>) -> Seq<u8>
    decreases stack.len(),
{
    if stack.len() == 0 {
        seq![0x2fu8]
    } else if stack.len() == 1 {
        seq![0x2fu8] + stack[0]
    } else {
        rendered(stack.drop_last()) + seq![0x2fu8] + stack.last()
    }
}

/// Index of the first `/` in `s`, or its length.
pub open spec fn slash_index(s: Seq<u8>) -> int
    decreases s.len(),
{
    if s.len() == 0 {
        0
    } else if s[0] == 0x2fu8 {
        0
    } else {
        1 + slash_index(s.drop_first())
    }
}

pub open spec fn is_dot(c: Seq<u8>) -> bool {
    c == seq![0x2eu8]
}

pub open spec fn is_dot_dot(c: Seq<u8>) -> bool {
    c == seq![0x2eu8, 0x2eu8]
}

/// Applies one path component to the stack of resolved components. `None`
/// means the path was rejected: too many components or an output longer than
/// `buffer_len`.
pub open spec fn apply_component(stack: Option<Seq<Seq<u8>>>, c: Seq<u8>, buffer_len: int) -> Option<Seq<Seq<u8>>> {
    match stack {
        None => None,
        Some(st) => if c.len() == 0 || is_dot(c) {
            Some(st)
        } else if is_dot_dot(c) {
            if st.len() > 0 { Some(st.drop_last()) } else { Some(st) }
        } else if st.len() >= MAX_PATH_COMPONENTS {
            None
        } else if rendered(st.push(c)).len() > buffer_len {
            None
        } else {
            Some(st.push(c))
        },
    }
}

/// Applies every `/`-separated component of `s` in order.
pub open spec fn walk_components(stack: Option<Seq<Seq<u8>>>, s: Seq<u8>, buffer_len: int) -> Option<Seq<Seq<u8>>>
    decreases s.len(),
{
    if s.len() == 0 {
        stack
    } else {
        let i = slash_index(s);
        let next = apply_component(stack, s.take(i), buffer_len);
        proof {
            lemma_slash_index(s);
        }
        if i < s.len() {
            walk_components(next, s.skip(i + 1), buffer_len)
        } else {
            next
        }
    }
}

/// The normalized form of `path` resolved against `cwd`, if it fits.
pub open spec fn spec_normalize(cwd: Seq<u8>, path: Seq<u8>, buffer_len: int) -> Option<Seq<u8>> {
    let stack = if path.len() > 0 && path[0] == 0x2fu8 {
        walk_components(Some(Seq::empty()), path, buffer_len)
    } else {
        walk_components(walk_components(Some(Seq::empty()), cwd, buffer_len), path, buffer_len)
    };
    match stack {
        Some(st) => Some(rendered(st)),
        None => None,
    }
}

pub proof fn lemma_slash_index(s: Seq<u8>)
    ensures
        0 <= slash_index(s) <= s.len(),
        slash_index(s) < s.len() ==> s[slash_index(s)] == 0x2fu8,
        forall|k: int| 0 <= k < slash_index(s) ==> s[k] != 0x2fu8,
    decreases s.len(),
{
    if s.len() > 0 && s[0] != 0x2fu8 {
        lemma_slash_index(s.drop_first());
        assert forall|k: int| 0 <= k < slash_index(s) implies s[k] != 0x2fu8 by {
            if k > 0 {
                assert(s[k] == s.drop_first()[k - 1]);
            }
        }
    }
}

proof fn lemma_slash_index_at(s: Seq<u8>, i: int)
    requires
        0 <= i <= s.len(),
        i < s.len() ==> s[i] == 0x2fu8,
        forall|k: int| 0 <= k < i ==> s[k] != 0x2fu8,
    ensures
        slash_index(s) == i,
    decreases s.len(),
{
    lemma_slash_index(s);
    if slash_index(s) < i {
        assert(s[slash_index(s)] == 0x2fu8);
    }
    if slash_index(s) > i {
        assert(s[i] != 0x2fu8);
    }
}

proof fn lemma_rendered_len(stack: Seq<Seq<u8>>)
    requires
        forall|k: int| 0 <= k < stack.len() ==> #[trigger] stack[k].len() > 0,
    ensures
        rendered(stack).len() >= 1,
        rendered(stack)[0] == 0x2fu8,
        (rendered(stack).len() == 1) == (stack.len() == 0),
    decreases stack.len(),
{
    if stack.len() > 1 {
        lemma_rendered_len(stack.drop_last());
    }
}

/// The rendering of a prefix of the stack is a prefix of the rendering.
proof fn lemma_rendered_prefix(stack: Seq<Seq<u8>>, k: int)
    requires
        0 <= k <= stack.len(),
    ensures
        rendered(stack.take(k)).len() <= rendered(stack).len(),
        rendered(stack).subrange(0, rendered(stack.take(k)).len() as int) == rendered(stack.take(k)),
    decreases stack.len(),
{
    if k == stack.len() {
        assert(stack.take(k) =~= stack);
    } else {
        let d = stack.drop_last();
        assert(stack.take(k) =~= d.take(k));
        lemma_rendered_prefix(d, k);
        let r = rendered(stack);
        let rd = rendered(d);
        if stack.len() == 1 {
            assert(stack.take(k) =~= Seq::<Seq<u8>>::empty());
        } else {
            assert(r == rd + seq![0x2fu8] + stack.last());
            assert(r.subrange(0, rd.len() as int) =~= rd);
            assert(r.subrange(0, rendered(stack.take(k)).len() as int) =~= rd.subrange(0, rendered(stack.take(k)).len() as int));
        }
    }
}

/// The output buffer, its used length and the recorded component starts
/// describe the component stack `stack`.
pub open spec fn consistent(buffer: Seq<u8>, len: usize, starts: Seq<usize>, stack: Seq<Seq<u8>>) -> bool {
    &&& forall|k: int| 0 <= k < stack.len() ==> #[trigger] stack[k].len() > 0
    &&& stack.len() <= MAX_PATH_COMPONENTS
    &&& starts.len() == stack.len()
    &&& len == rendered(stack).len()
    &&& len <= buffer.len()
    &&& buffer.subrange(0, len as int) == rendered(stack)
    &&& forall|k: int| 0 <= k < starts.len() ==> #[trigger] starts[k] == rendered(stack.take(k)).len()
}

proof fn lemma_walk_none(s: Seq<u8>, buffer_len: int)
    ensures
        walk_components(None, s, buffer_len) == None::<Seq<Seq<u8>>>,
    decreases s.len(),
{
    if s.len() > 0 {
        lemma_slash_index(s);
        if slash_index(s) < s.len() {
            lemma_walk_none(s.skip(slash_index(s) + 1), buffer_len);
        }
    }
}

proof fn lemma_rendered_push(stack: Seq<Seq<u8>>, c: Seq<u8>)
    ensures
        rendered(stack.push(c)) == if stack.len() == 0 { seq![0x2fu8] + c } else { rendered(stack) + seq![0x2fu8] + c },
{
    assert(stack.push(c).drop_last() =~= stack);
}

/// Resolves every component of `source` onto the stack held in `buffer`.
#[verifier::rlimit(40)]
fn normalize_path_parts(
    source: &[u8],
    buffer: &mut [u8],
    normalized_len: &mut usize,
    component_starts: &mut Vec<usize>,
    Ghost(stack): Ghost<Seq<Seq<u8>>>,
) -> (r: Result<(), StorageError>)
    requires
        consistent(old(buffer)@, *old(normalized_len), old(component_starts)@, stack),
    ensures
        final(buffer)@.len() == old(buffer)@.len(),
        match walk_components(Some(stack), source@, old(buffer)@.len() as int) {
            Some(st) => r is Ok && consistent(final(buffer)@, *final(normalized_len), final(component_starts)@, st),
            None => r == Err::<(), StorageError>(StorageError::InvalidPath),
        },
{
    let ghost buffer_len = buffer@.len() as int;
    let ghost mut st = stack;
    let blen = buffer.len();
    let slen = source.len();
    let mut pos: usize = 0;
    assert(source@.skip(0) =~= source@);
    while pos < source.len()
        invariant
            buffer@.len() == buffer_len,
            buffer_len == old(buffer)@.len(),
            blen == buffer_len,
            slen == source@.len(),
            pos <= source@.len(),
            consistent(buffer@, *normalized_len, component_starts@, st),
            walk_components(Some(stack), source@, buffer_len)
                == walk_components(Some(st), source@.skip(pos as int), buffer_len),
        decreases source@.len() - pos,
    {
        let mut end = pos;
        while end < source.len() && source[end] != 0x2fu8
            invariant
                pos <= end <= source@.len(),
                forall|k: int| pos <= k < end ==> source@[k] != 0x2fu8,
            decreases source@.len() - end,
        {
            end += 1;
        }
        let ghost rest = source@.skip(pos as int);
        let ghost comp = source@.subrange(pos as int, end as int);
        proof {
            lemma_slash_index_at(rest, end - pos);
            assert(rest.take(end - pos) =~= comp);
            if end < source@.len() {
                assert(rest.skip(end - pos + 1) =~= source@.skip(end + 1));
            }
        }
        let len = end - pos;
        let is_empty_or_dot = len == 0 || (len == 1 && source[pos] == 0x2eu8);
        let is_parent = len == 2 && source[pos] == 0x2eu8 && source[pos + 1] == 0x2eu8;
        proof {
            if len == 1 {
                assert(comp.len() == 1 && comp[0] == source@[pos as int]);
                if source@[pos as int] == 0x2eu8 {
                    assert(comp =~= seq![0x2eu8]);
                }
            }
            if len == 2 && source@[pos as int] == 0x2eu8 && source@[pos + 1] == 0x2eu8 {
                assert(comp =~= seq![0x2eu8, 0x2eu8]);
            }
            if is_dot(comp) {
                assert(comp.len() == 1 && comp[0] == 0x2eu8);
            }
            if is_dot_dot(comp) {
                assert(comp.len() == 2 && comp[0] == 0x2eu8 && comp[1] == 0x2eu8);
            }
        }
        if is_empty_or_dot {
        } else if is_parent {
            if component_starts.len() > 0 {
                let last = component_starts.len() - 1;
                let start_of_last = component_starts[last];
                proof {
                    lemma_rendered_prefix(st, last as int);
                    assert(st.take(last as int) =~= st.drop_last());
                    assert forall|k: int| 0 <= k < last implies #[trigger] st.drop_last().take(k) == st.take(k) by {
                        assert(st.drop_last().take(k) =~= st.take(k));
                    }
                }
                *normalized_len = start_of_last;
                component_starts.pop();
                proof {
                    let nst = st.drop_last();
                    assert(buffer@.subrange(0, *normalized_len as int) =~= rendered(st).subrange(0, *normalized_len as int));
                    assert forall|k: int| 0 <= k < component_starts@.len() implies #[trigger] component_starts@[k] == rendered(nst.take(k)).len() by {
                        assert(nst.take(k) == st.take(k));
                    }
                    st = nst;
                }
            }
        } else {
            if component_starts.len() >= MAX_PATH_COMPONENTS {
                proof {
                    lemma_walk_none(source@.skip(end + 1), buffer_len);
                }
                return Err(StorageError::InvalidPath);
            }
            let previous_len = *normalized_len;
            proof {
                lemma_rendered_len(st);
                lemma_rendered_push(st, comp);
            }
            let fits = if previous_len == 1 { len <= blen - previous_len } else { len < blen - previous_len };
            if !fits {
                proof {
                    lemma_walk_none(source@.skip(end + 1), buffer_len);
                }
                return Err(StorageError::InvalidPath);
            }
            let ghost prefix = rendered(st);
            if previous_len > 1 {
                buffer[previous_len] = 0x2fu8;
            }
            let base = if previous_len > 1 { previous_len + 1 } else { previous_len };
            proof {
                assert(buffer@.subrange(0, base as int) =~= if st.len() == 0 { seq![0x2fu8] } else { prefix + seq![0x2fu8] });
            }
            let mut j: usize = 0;
            while j < len
                invariant
                    buffer@.len() == buffer_len,
                    blen == buffer_len,
                    slen == source@.len(),
                    base + len <= buffer_len,
                    pos + len <= source@.len(),
                    comp == source@.subrange(pos as int, pos + len),
                    j <= len,
                    buffer@.subrange(0, base as int) == if st.len() == 0 { seq![0x2fu8] } else { prefix + seq![0x2fu8] },
                    forall|k: int| 0 <= k < j ==> buffer@[base + k] == comp[k],
                decreases len - j,
            {
                buffer[base + j] = source[pos + j];
                proof {
                    assert(buffer@.subrange(0, base as int) == if st.len() == 0 { seq![0x2fu8] } else { prefix + seq![0x2fu8] });
                }
                j += 1;
            }
            *normalized_len = base + len;
            component_starts.push(previous_len);
            proof {
                let nst = st.push(comp);
                assert(buffer@.subrange(0, *normalized_len as int) =~= rendered(nst));
                assert forall|k: int| 0 <= k < component_starts@.len() implies #[trigger] component_starts@[k] == rendered(nst.take(k)).len() by {
                    if k < st.len() {
                        assert(nst.take(k) =~= st.take(k));
                    } else {
                        assert(nst.take(k) =~= st);
                    }
                }
                assert forall|k: int| 0 <= k < nst.len() implies #[trigger] nst[k].len() > 0 by {
                    if k < st.len() {
                        assert(nst[k] == st[k]);
                    }
                }
                st = nst;
            }
        }
        if end >= source.len() {
            pos = end;
            proof {
                assert(source@.skip(pos as int) =~= Seq::<u8>::empty());
            }
        } else {
            pos = end + 1;
        }
    }
    proof {
        assert(source@.skip(pos as int) =~= Seq::<u8>::empty());
    }
    Ok(())
}

/// A component stack that normalization can produce: at most
/// `MAX_PATH_COMPONENTS` components, none empty, `.` or `..`, none holding a
/// `/`, and, unless it is empty, a rendering within `buffer_len` bytes.
pub open spec fn canonical_stack(stack: Seq<Seq<u8>>, buffer_len: int) -> bool {
    &&& stack.len() <= MAX_PATH_COMPONENTS
    &&& stack.len() > 0 ==> rendered(stack).len() <= buffer_len
    &&& forall|k: int| 0 <= k < stack.len() ==> {
        let c = #[trigger] stack[k];
        &&& c.len() > 0
        &&& !is_dot(c)
        &&& !is_dot_dot(c)
        &&& forall|j: int| 0 <= j < c.len() ==> c[j] != 0x2fu8
    }
}

/// Walking `s1`, a `/` and `s2` is walking `s1`, then `s2`.
proof fn lemma_walk_concat(stack: Option<Seq<Seq<u8>>>, s1: Seq<u8>, s2: Seq<u8>, buffer_len: int)
    ensures
        walk_components(stack, s1 + seq![0x2fu8] + s2, buffer_len)
            == walk_components(walk_components(stack, s1, buffer_len), s2, buffer_len),
    decreases s1.len(),
{
    let s = s1 + seq![0x2fu8] + s2;
    lemma_slash_index(s);
    lemma_slash_index(s1);
    let i = slash_index(s1);
    if i == s1.len() {
        lemma_slash_index_at(s, s1.len() as int);
        assert(s.take(i) =~= s1);
        assert(s1.take(i) =~= s1);
        assert(s.skip(i + 1) =~= s2);
        let next = apply_component(stack, s1, buffer_len);
        assert(walk_components(stack, s, buffer_len) == walk_components(next, s2, buffer_len));
        if s1.len() == 0 {
            assert(next == stack);
            assert(walk_components(stack, s1, buffer_len) == stack);
        } else {
            assert(walk_components(stack, s1, buffer_len) == next);
        }
    } else {
        lemma_slash_index_at(s, i);
        assert(s.take(i) =~= s1.take(i));
        assert(s.skip(i + 1) =~= s1.skip(i + 1) + seq![0x2fu8] + s2);
        let next = apply_component(stack, s1.take(i), buffer_len);
        assert(walk_components(stack, s, buffer_len) == walk_components(next, s.skip(i + 1), buffer_len));
        assert(walk_components(stack, s1, buffer_len) == walk_components(next, s1.skip(i + 1), buffer_len));
        lemma_walk_concat(next, s1.skip(i + 1), s2, buffer_len);
    }
}

/// The rendering of a stack without its last component is no longer.
proof fn lemma_rendered_drop_last(stack: Seq<Seq<u8>>)
    requires
        stack.len() > 0,
    ensures
        rendered(stack.drop_last()).len() <= rendered(stack).len(),
{
    if stack.len() == 1 {
        assert(stack.drop_last() =~= Seq::<Seq<u8>>::empty());
    }
}

/// Walking the rendering of a canonical stack from the root gives the stack
/// back.
proof fn lemma_walk_rendered(stack: Seq<Seq<u8>>, buffer_len: int)
    requires
        canonical_stack(stack, buffer_len),
    ensures
        walk_components(Some(Seq::empty()), rendered(stack), buffer_len) == Some(stack),
    decreases stack.len(),
{
    if stack.len() == 0 {
        let r = rendered(stack);
        assert(r == seq![0x2fu8]);
        lemma_slash_index_at(r, 0);
        assert(r.take(0) =~= Seq::<u8>::empty());
        assert(r.skip(1) =~= Seq::<u8>::empty());
        assert(stack =~= Seq::<Seq<u8>>::empty());
    } else {
        let d = stack.drop_last();
        let c = stack.last();
        assert(c == stack[stack.len() - 1]);
        lemma_rendered_drop_last(stack);
        assert(canonical_stack(d, buffer_len)) by {
            assert forall|k: int| 0 <= k < d.len() implies {
                let e = #[trigger] d[k];
                &&& e.len() > 0
                &&& !is_dot(e)
                &&& !is_dot_dot(e)
                &&& forall|j: int| 0 <= j < e.len() ==> e[j] != 0x2fu8
            } by {
                assert(d[k] == stack[k]);
            }
        }
        let prefix = if stack.len() == 1 { Seq::<u8>::empty() } else { rendered(d) };
        assert(rendered(stack) == prefix + seq![0x2fu8] + c) by {
            if stack.len() == 1 {
                assert(seq![0x2fu8] + stack[0] =~= Seq::<u8>::empty() + seq![0x2fu8] + c);
            }
        }
        lemma_walk_concat(Some(Seq::empty()), prefix, c, buffer_len);
        if stack.len() == 1 {
            assert(walk_components(Some(Seq::empty()), prefix, buffer_len) == Some(Seq::<Seq<u8>>::empty()));
            assert(d =~= Seq::<Seq<u8>>::empty());
        } else {
            lemma_walk_rendered(d, buffer_len);
        }
        // the last component has no slash, so it is applied whole
        lemma_slash_index_at(c, c.len() as int);
        assert(c.take(c.len() as int) =~= c);
        assert(d.push(c) =~= stack);
        assert(d.len() < MAX_PATH_COMPONENTS);
    }
}

/// What one component does to a canonical stack keeps it canonical.
proof fn lemma_apply_canonical(stack: Option<Seq<Seq<u8>>>, c: Seq<u8>, buffer_len: int)
    requires
        stack matches Some(st) ==> canonical_stack(st, buffer_len),
        forall|j: int| 0 <= j < c.len() ==> c[j] != 0x2fu8,
    ensures
        apply_component(stack, c, buffer_len) matches Some(st) ==> canonical_stack(st, buffer_len),
{
    if let Some(st) = stack {
        if c.len() == 0 || is_dot(c) {
        } else if is_dot_dot(c) {
            if st.len() > 0 {
                lemma_rendered_drop_last(st);
                let d = st.drop_last();
                assert forall|k: int| 0 <= k < d.len() implies {
                    let e = #[trigger] d[k];
                    &&& e.len() > 0
                    &&& !is_dot(e)
                    &&& !is_dot_dot(e)
                    &&& forall|j: int| 0 <= j < e.len() ==> e[j] != 0x2fu8
                } by {
                    assert(d[k] == st[k]);
                }
            }
        } else if st.len() < MAX_PATH_COMPONENTS && rendered(st.push(c)).len() <= buffer_len {
            let n = st.push(c);
            assert forall|k: int| 0 <= k < n.len() implies {
                let e = #[trigger] n[k];
                &&& e.len() > 0
                &&& !is_dot(e)
                &&& !is_dot_dot(e)
                &&& forall|j: int| 0 <= j < e.len() ==> e[j] != 0x2fu8
            } by {
                if k < st.len() {
                    assert(n[k] == st[k]);
                }
            }
        }
    }
}

/// Walking keeps a canonical stack canonical.
proof fn lemma_walk_canonical(stack: Option<Seq<Seq<u8>>>, s: Seq<u8>, buffer_len: int)
    requires
        stack matches Some(st) ==> canonical_stack(st, buffer_len),
    ensures
        walk_components(stack, s, buffer_len) matches Some(st) ==> canonical_stack(st, buffer_len),
    decreases s.len(),
{
    if s.len() > 0 {
        lemma_slash_index(s);
        let i = slash_index(s);
        assert forall|j: int| 0 <= j < s.take(i).len() implies s.take(i)[j] != 0x2fu8 by {
            assert(s.take(i)[j] == s[j]);
        }
        lemma_apply_canonical(stack, s.take(i), buffer_len);
        if i < s.len() {
            lemma_walk_canonical(apply_component(stack, s.take(i), buffer_len), s.skip(i + 1), buffer_len);
        }
    }
}

/// The stack of components that `spec_normalize` renders.
pub open spec fn normalized_stack(cwd: Seq<u8>, path: Seq<u8>, buffer_len: int) -> Option<Seq<Seq<u8>>> {
    if path.len() > 0 && path[0] == 0x2fu8 {
        walk_components(Some(Seq::empty()), path, buffer_len)
    } else {
        walk_components(walk_components(Some(Seq::empty()), cwd, buffer_len), path, buffer_len)
    }
}

/// A canonical stack stays canonical for any buffer its rendering fits.
proof fn lemma_canonical_for(stack: Seq<Seq<u8>>, buffer_len: int, other_len: int)
    requires
        canonical_stack(stack, buffer_len),
        rendered(stack).len() <= other_len,
    ensures
        canonical_stack(stack, other_len),
{
}

/// The stack behind a normalized path is canonical.
proof fn lemma_normalized_canonical(cwd: Seq<u8>, path: Seq<u8>, buffer_len: int)
    ensures
        normalized_stack(cwd, path, buffer_len) matches Some(st) ==> canonical_stack(st, buffer_len),
{
    let empty = Seq::<Seq<u8>>::empty();
    lemma_walk_canonical(Some(empty), cwd, buffer_len);
    lemma_walk_canonical(Some(empty), path, buffer_len);
    lemma_walk_canonical(walk_components(Some(empty), cwd, buffer_len), path, buffer_len);
}

/// Normalization is idempotent: a normalized path, resolved again against
/// any working directory into any buffer it fits, comes back unchanged.
pub proof fn lemma_normalize_idempotent(cwd: Seq<u8>, path: Seq<u8>, buffer_len: int, other_cwd: Seq<u8>, other_len: int)
    requires
        spec_normalize(cwd, path, buffer_len) is Some,
        spec_normalize(cwd, path, buffer_len).unwrap().len() <= other_len,
    ensures
        spec_normalize(other_cwd, spec_normalize(cwd, path, buffer_len).unwrap(), other_len)
            == spec_normalize(cwd, path, buffer_len),
{
    let st = normalized_stack(cwd, path, buffer_len).unwrap();
    lemma_normalized_canonical(cwd, path, buffer_len);
    assert forall|k: int| 0 <= k < st.len() implies #[trigger] st[k].len() > 0 by {}
    lemma_rendered_len(st);
    lemma_canonical_for(st, buffer_len, other_len);
    lemma_walk_rendered(st, other_len);
}

/// A normalized path starts with `/`, ends with a component rather than a
/// `/` unless it is the root, and is the rendering of a stack of components
/// none of which is empty, `.` or `..` or holds a `/`.
pub proof fn lemma_normalize_shape(cwd: Seq<u8>, path: Seq<u8>, buffer_len: int)
    requires
        spec_normalize(cwd, path, buffer_len) is Some,
    ensures
        ({
            let out = spec_normalize(cwd, path, buffer_len).unwrap();
            &&& out.len() >= 1
            &&& out[0] == 0x2fu8
            &&& out.len() > 1 ==> out.last() != 0x2fu8
            &&& exists|st: Seq<Seq<u8>>| canonical_stack(st, buffer_len) && out == rendered(st)
        }),
{
    let st = normalized_stack(cwd, path, buffer_len).unwrap();
    lemma_normalized_canonical(cwd, path, buffer_len);
    assert forall|k: int| 0 <= k < st.len() implies #[trigger] st[k].len() > 0 by {}
    lemma_rendered_len(st);
    let out = rendered(st);
    if st.len() > 0 {
        let c = st.last();
        assert(c == st[st.len() - 1]);
        if st.len() == 1 {
            assert(out == seq![0x2fu8] + c);
        } else {
            assert(out == rendered(st.drop_last()) + seq![0x2fu8] + c);
        }
        assert(out.last() == c.last());
    }
}

/// Canonicalizes one runtime path against a process-owned cwd, writing the
/// result to the front of `buffer` and returning its length.
pub fn normalize_path(cwd: &str, path: &str, buffer: &mut [u8]) -> (r: Result<usize, StorageError>)
    requires
        path.spec_bytes().len() > 0 ==> old(buffer)@.len() >= 1,
    ensures
        final(buffer)@.len() == old(buffer)@.len(),
        path.spec_bytes().len() == 0 ==> r == Err::<usize, StorageError>(StorageError::InvalidPath),
        path.spec_bytes().len() > 0 ==> match spec_normalize(cwd.spec_bytes(), path.spec_bytes(), old(buffer)@.len() as int) {
            Some(out) => r == Ok::<usize, StorageError>(out.len() as usize)
                && out.len() <= old(buffer)@.len()
                && final(buffer)@.subrange(0, out.len() as int) == out,
            None => r == Err::<usize, StorageError>(StorageError::InvalidPath),
        },
{
    let path_bytes = path.as_bytes();
    let cwd_bytes = cwd.as_bytes();
    if path_bytes.len() == 0 {
        return Err(StorageError::InvalidPath);
    }
    let mut normalized_len: usize = 1;
    let mut component_starts: Vec<usize> = Vec::new();
    buffer[0] = 0x2fu8;
    let ghost empty: Seq<Seq<u8>> = Seq::empty();
    assert(buffer@.subrange(0, 1) =~= rendered(empty));
    if path_bytes[0] == 0x2fu8 {
        normalize_path_parts(path_bytes, buffer, &mut normalized_len, &mut component_starts, Ghost(empty))?;
    } else {
        let first = normalize_path_parts(cwd_bytes, buffer, &mut normalized_len, &mut component_starts, Ghost(empty));
        if first.is_err() {
            proof {
                lemma_walk_none(path_bytes@, old(buffer)@.len() as int);
            }
            return Err(StorageError::InvalidPath);
        }
        let ghost mid = walk_components(Some(empty), cwd_bytes@, old(buffer)@.len() as int).unwrap();
        normalize_path_parts(path_bytes, buffer, &mut normalized_len, &mut component_starts, Ghost(mid))?;
    }
    Ok(normalized_len)
}

} // verus!
