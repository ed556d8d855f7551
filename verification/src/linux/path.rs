//! Linux paths: normal forms of absolute paths, inside a root or not.
use super::errno::{Errno, Result};
use crate::fixed::InlineString;
use crate::text;
use vstd::prelude::*;
use vstd::slice::slice_subrange;
use vstd::string::StringSliceAdditionalSpecFns;
use vstd::utf8::*;

verus! {

/// The byte `/`.
pub const SLASH: u8 = 47;

/// The byte `.`.
pub const DOT: u8 = 46;

/// A component that names the directory it stands in.
pub open spec fn is_current(component: Seq<u8>) -> bool {
    component.len() == 0 || component == seq![DOT]
}

/// A component that names the parent directory.
pub open spec fn is_parent(component: Seq<u8>) -> bool {
    component == seq![DOT, DOT]
}

/// The names below the root to which one more component leads. The names up to
/// `floor` are never left.
pub open spec fn entered(names: Seq<Seq<u8>>, component: Seq<u8>, floor: nat) -> Seq<Seq<u8>> {
    if is_current(component) {
        names
    } else if is_parent(component) {
        if names.len() > floor {
            names.drop_last()
        } else {
            names
        }
    } else {
        names.push(component)
    }
}

/// The names to which the components lead from `names`.
pub open spec fn resolved(
    names: Seq<Seq<u8>>,
    components: Seq<Seq<u8>>,
    floor: nat,
) -> Seq<Seq<u8>>
    decreases components.len(),
{
    if components.len() == 0 {
        names
    } else {
        entered(resolved(names, components.drop_last(), floor), components.last(), floor)
    }
}

/// Each name behind a slash.
pub open spec fn joined(names: Seq<Seq<u8>>) -> Seq<u8>
    decreases names.len(),
{
    if names.len() == 0 {
        Seq::empty()
    } else {
        joined(names.drop_last()) + seq![SLASH] + names.last()
    }
}

/// The absolute path with these names.
pub open spec fn path_of(names: Seq<Seq<u8>>) -> Seq<u8> {
    if names.len() == 0 {
        seq![SLASH]
    } else {
        joined(names)
    }
}

/// Names as they stand in a normal form: not empty, and without a slash.
pub open spec fn proper(names: Seq<Seq<u8>>) -> bool {
    forall|k: int| 0 <= k < names.len() ==> #[trigger] names[k].len() > 0 && !names[k].contains(SLASH)
        && !is_current(names[k]) && !is_parent(names[k])
}

/// What stands in a buffer of capacity `capacity` when the component behind
/// `names` was refused: a slash may have been written already.
pub open spec fn cut_short(names: Seq<Seq<u8>>, capacity: nat) -> Seq<u8> {
    let path = path_of(names);
    if path.len() > 1 && path.len() < capacity {
        path.push(SLASH)
    } else {
        path
    }
}

/// Whether every stage of walking `components` from `names` fits in `capacity`.
pub open spec fn stages_fit(
    names: Seq<Seq<u8>>,
    components: Seq<Seq<u8>>,
    floor: nat,
    capacity: nat,
) -> bool {
    forall|k: int|
        0 <= k <= components.len() ==> path_of(
            #[trigger] resolved(names, components.take(k), floor),
        ).len() <= capacity
}

/// The components of a path.
pub open spec fn components(path: Seq<u8>) -> Seq<Seq<u8>> {
    text::split(path, SLASH)
}

/// The names of the normal form of an absolute path.
pub open spec fn normal_names(path: Seq<u8>) -> Seq<Seq<u8>> {
    resolved(Seq::empty(), components(path), 0)
}

proof fn lemma_joined_len(names: Seq<Seq<u8>>)
    requires
        proper(names),
    ensures
        joined(names).len() >= 2 * names.len(),
        names.len() > 0 ==> joined(names)[0] == SLASH,
    decreases names.len(),
{
    if names.len() > 0 {
        assert(proper(names.drop_last())) by {
            assert forall|k: int| 0 <= k < names.len() - 1 implies #[trigger] names.drop_last()[k].len() > 0
                && !names.drop_last()[k].contains(SLASH) && !is_current(names.drop_last()[k])
                && !is_parent(names.drop_last()[k]) by {
                assert(names[k].len() > 0);
            }
        }
        lemma_joined_len(names.drop_last());
        assert(names[names.len() - 1].len() > 0);
        if names.len() > 1 {
            assert(joined(names)[0] == joined(names.drop_last())[0]);
        }
    }
}

proof fn lemma_proper_steps(names: Seq<Seq<u8>>, component: Seq<u8>, floor: nat)
    requires
        proper(names),
        !component.contains(SLASH),
    ensures
        proper(entered(names, component, floor)),
{
    assert forall|k: int| 0 <= k < entered(names, component, floor).len() implies
        #[trigger] entered(names, component, floor)[k].len() > 0 && !entered(names, component, floor)[k].contains(SLASH)
        && !is_current(entered(names, component, floor)[k]) && !is_parent(entered(names, component, floor)[k]) by {
        if k < names.len() {
            assert(names[k].len() > 0);
        }
    }
}

/// Resolving components keeps names proper.
pub proof fn lemma_resolved_proper(names: Seq<Seq<u8>>, parts: Seq<Seq<u8>>, floor: nat)
    requires
        proper(names),
        forall|k: int| 0 <= k < parts.len() ==> !#[trigger] parts[k].contains(SLASH),
    ensures
        proper(resolved(names, parts, floor)),
    decreases parts.len(),
{
    if parts.len() > 0 {
        assert forall|k: int| 0 <= k < parts.len() - 1 implies !#[trigger] parts.drop_last()[k].contains(SLASH) by {
            assert(!parts[k].contains(SLASH));
        }
        lemma_resolved_proper(names, parts.drop_last(), floor);
        lemma_proper_steps(resolved(names, parts.drop_last(), floor), parts.last(), floor);
    }
}

/// Removes the last name of a normal form.
fn pop_component<const N: usize>(path: &mut InlineString<N>, Ghost(names): Ghost<Seq<Seq<u8>>>)
    requires
        proper(names),
        old(path)@ == path_of(names),
    ensures
        final(path)@ == path_of(if names.len() > 0 {
            names.drop_last()
        } else {
            names
        }),
{
    if path.len() <= 1 {
        proof {
            lemma_joined_len(names);
        }
        return ;
    }
    let mut new_len: usize = path.len() - 1;
    proof {
        lemma_joined_len(names);
        assert(names.len() > 0);
        lemma_joined_len_prefix(names);
    }
    let ghost shorter = joined(names.drop_last()).len();
    {
        let bytes = path.as_bytes();
        while bytes[new_len] != SLASH
            invariant
                names.len() > 0,
                proper(names),
                bytes@ == joined(names),
                shorter == joined(names.drop_last()).len(),
                shorter <= new_len < bytes@.len(),
                bytes@[shorter as int] == SLASH,
            decreases new_len,
        {
            new_len -= 1;
        }
        proof {
            if new_len > shorter {
                let last = names.last();
                assert(joined(names)[new_len as int] == last[new_len - shorter - 1]);
                assert(names[names.len() - 1].len() > 0);
                assert(last.contains(SLASH));
            }
        }
    }
    if new_len < 1 {
        new_len = 1;
    }
    proof {
        text::lemma_cut_at_ascii(path@, 0);
        if new_len > 1 {
            text::lemma_cut_at_ascii(path@, new_len as int);
        } else {
            assert(path@.skip(0) =~= path@);
            reveal_with_fuel(is_char_boundary, 2);
        }
    }
    path.truncate(new_len);
    proof {
        if names.len() == 1 {
            assert(names.drop_last().len() == 0);
            assert(path@ =~= seq![SLASH]);
        } else {
            lemma_joined_len_prefix(names);
            assert(path@ =~= joined(names.drop_last()));
        }
    }
}

proof fn lemma_joined_len_prefix(names: Seq<Seq<u8>>)
    requires
        proper(names),
        names.len() > 0,
    ensures
        proper(names.drop_last()),
        joined(names).len() == joined(names.drop_last()).len() + 1 + names.last().len(),
        joined(names)[joined(names.drop_last()).len() as int] == SLASH,
        names.len() > 1 ==> joined(names.drop_last()).len() >= 2,
        names.len() == 1 ==> joined(names.drop_last()).len() == 0,
        joined(names)[0] == SLASH,
        joined(names).take(joined(names.drop_last()).len() as int) == joined(names.drop_last()),
{
    assert forall|k: int| 0 <= k < names.len() - 1 implies #[trigger] names.drop_last()[k].len() > 0
        && !names.drop_last()[k].contains(SLASH) && !is_current(names.drop_last()[k]) && !is_parent(
        names.drop_last()[k],
    ) by {
        assert(names[k].len() > 0);
    }
    lemma_joined_len(names.drop_last());
    lemma_joined_len(names);
    assert(joined(names).take(joined(names.drop_last()).len() as int) =~= joined(
        names.drop_last(),
    ));
}

/// Appends a name to a normal form.
fn push_component<const N: usize>(
    path: &mut InlineString<N>,
    component: &[u8],
    Ghost(names): Ghost<Seq<Seq<u8>>>,
) -> (result: Result<()>)
    requires
        proper(names),
        old(path)@ == path_of(names),
        component@.len() > 0,
        valid_utf8(component@),
        path_of(names).len() <= N,
    ensures
        result is Ok <==> path_of(names.push(component@)).len() <= N,
        result is Ok ==> final(path)@ == path_of(names.push(component@)),
        result matches Err(error) ==> error == Errno::ENAMETOOLONG && final(path)@ == cut_short(
            names,
            N as nat,
        ),
{
    proof {
        lemma_joined_len(names);
        assert(names.push(component@).drop_last() =~= names);
        assert(joined(names.push(component@)) == joined(names) + seq![SLASH] + component@);
    }
    if path.len() > 1 {
        if path.push_byte(SLASH).is_err() {
            return Err(Errno::NameTooLong);
        }
    }
    proof {
        assert(path@ =~= joined(names) + seq![SLASH]);
    }
    if path.push_bytes(component).is_err() {
        return Err(Errno::NameTooLong);
    }
    assert(path@ =~= joined(names.push(component@)));
    Ok(())
}

/// Whether `text` is what is left of a walk at the first stage that does not fit.
pub open spec fn broken_off(
    start: Seq<Seq<u8>>,
    parts: Seq<Seq<u8>>,
    floor: nat,
    capacity: nat,
    text: Seq<u8>,
) -> bool {
    exists|k: int|
        0 <= k < parts.len() && path_of(resolved(start, parts.take(k + 1), floor)).len()
            > capacity && stages_fit(start, parts.take(k), floor, capacity) && text == cut_short(
            #[trigger] resolved(start, parts.take(k), floor),
            capacity,
        )
}

/// Walks the components of `input` from the names that `output` holds, without
/// leaving the first `floor` of them.
fn walk<const N: usize>(
    input: &[u8],
    output: &mut InlineString<N>,
    root: &[u8],
    Ghost(start): Ghost<Seq<Seq<u8>>>,
    Ghost(floor): Ghost<nat>,
) -> (result: Result<()>)
    requires
        valid_utf8(input@),
        proper(start),
        floor <= start.len(),
        root@ == path_of(start.take(floor as int)),
        old(output)@ == path_of(start),
        path_of(start).len() <= N,
    ensures
        result is Ok <==> stages_fit(start, components(input@), floor, N as nat),
        match result {
            Ok(_) => final(output)@ == path_of(resolved(start, components(input@), floor)),
            Err(error) => error == Errno::ENAMETOOLONG && broken_off(
                start,
                components(input@),
                floor,
                N as nat,
                final(output)@,
            ),
        },
{
    let ghost parts = components(input@);
    let ghost mut done: int = 0;
    let mut begin: usize = 0;
    proof {
        text::lemma_split(input@, SLASH);
        text::lemma_split_utf8(input@, SLASH);
        assert(input@.skip(0) =~= input@);
        assert(parts.take(0) =~= Seq::<Seq<u8>>::empty());
        assert(parts.skip(0) =~= parts);
    }
    loop
        invariant
            begin <= input@.len(),
            parts == components(input@),
            0 <= done < parts.len(),
            parts.skip(done) == text::split(input@.skip(begin as int), SLASH),
            forall|k: int| 0 <= k < parts.len() ==> !#[trigger] parts[k].contains(SLASH),
            forall|k: int| 0 <= k < parts.len() ==> valid_utf8(#[trigger] parts[k]),
            proper(start),
            floor <= start.len(),
            root@ == path_of(start.take(floor as int)),
            start.take(floor as int) == resolved(start, parts.take(done), floor).take(
                floor as int,
            ),
            floor <= resolved(start, parts.take(done), floor).len(),
            output@ == path_of(resolved(start, parts.take(done), floor)),
            stages_fit(start, parts.take(done), floor, N as nat),
        decreases input@.len() - begin,
    {
        let end: usize = text::position_from(input, begin, SLASH);
        let component = slice_subrange(input, begin, end);
        let ghost names = resolved(start, parts.take(done), floor);
        let ghost rest = input@.skip(begin as int);
        proof {
            text::lemma_position(rest, SLASH);
            assert(rest.take(end - begin) =~= component@);
            assert(parts[done] == parts.skip(done)[0]);
            assert(component@ == parts[done]);
            assert forall|k: int| 0 <= k < parts.take(done).len() implies !#[trigger] parts.take(done)[k].contains(SLASH) by {
                assert(!parts[k].contains(SLASH));
            }
            lemma_resolved_proper(start, parts.take(done), floor);
            assert(parts.take(done + 1).drop_last() =~= parts.take(done));
            assert(resolved(start, parts.take(done + 1), floor) == entered(
                names,
                component@,
                floor,
            ));
            assert(parts.take(done).take(done) =~= parts.take(done));
            assert(path_of(resolved(start, parts.take(done).take(done), floor)).len() <= N);
        }
        let current = component.len() == 0 || (component.len() == 1 && component[0] == DOT);
        let upward = component.len() == 2 && component[0] == DOT && component[1] == DOT;
        assert(current == is_current(component@)) by {
            if current && component@.len() == 1 {
                assert(component@ =~= seq![DOT]);
            }
        }
        assert(upward == is_parent(component@)) by {
            if upward {
                assert(component@ =~= seq![DOT, DOT]);
            }
        }
        if current {
        } else if upward {
            if !text::equal(output.as_bytes(), root) {
                proof {
                    if names.len() == floor {
                        assert(names.take(floor as int) =~= names);
                    }
                }
                pop_component(output, Ghost(names));
            } else {
                proof {
                    lemma_path_of_injective_prefix(names, floor);
                }
            }
        } else {
            let ghost before = output@;
            let pushed = push_component(output, component, Ghost(names));
            if pushed.is_err() {
                proof {
                    assert(parts.take(done + 1).take(done + 1) =~= parts.take(done + 1));
                    assert(path_of(resolved(start, parts.take(done + 1), floor)).len() > N);
                    assert(output@ == cut_short(
                        resolved(start, parts.take(done), floor),
                        N as nat,
                    ));
                }
                return Err(Errno::NameTooLong);
            }
        }
        proof {
            let next = entered(names, component@, floor);
            assert(next.take(floor as int) =~= names.take(floor as int));
            assert(output@ == path_of(next));
            lemma_stages_extend(start, parts, done, floor, N as nat);
        }
        if end == input.len() {
            proof {
                assert(parts.skip(done) =~= seq![rest]);
                assert(parts.len() == done + 1);
                assert(parts.take(done + 1) =~= parts);
            }
            return Ok(());
        }
        proof {
            assert(rest.skip(end - begin + 1) =~= input@.skip(end + 1));
            assert(parts.skip(done + 1) =~= parts.skip(done).skip(1));
            assert(parts.skip(done).skip(1) =~= text::split(input@.skip(end + 1), SLASH));
            text::lemma_split(input@.skip(end + 1), SLASH);
            done = done + 1;
        }
        begin = end + 1;
    }
}

proof fn lemma_stages_extend(
    start: Seq<Seq<u8>>,
    parts: Seq<Seq<u8>>,
    done: int,
    floor: nat,
    capacity: nat,
)
    requires
        0 <= done < parts.len(),
        stages_fit(start, parts.take(done), floor, capacity),
        path_of(resolved(start, parts.take(done + 1), floor)).len() <= capacity,
    ensures
        stages_fit(start, parts.take(done + 1), floor, capacity),
{
    assert forall|k: int| 0 <= k <= parts.take(done + 1).len() implies path_of(
        #[trigger] resolved(start, parts.take(done + 1).take(k), floor),
    ).len() <= capacity by {
        if k <= done {
            assert(parts.take(done + 1).take(k) =~= parts.take(done).take(k));
            assert(path_of(resolved(start, parts.take(done).take(k), floor)).len() <= capacity);
        } else {
            assert(parts.take(done + 1).take(k) =~= parts.take(done + 1));
        }
    }
}

/// A path with more names than its root is longer than the root.
proof fn lemma_path_of_injective_prefix(names: Seq<Seq<u8>>, floor: nat)
    requires
        proper(names),
        floor <= names.len(),
        path_of(names) == path_of(names.take(floor as int)),
    ensures
        names.len() == floor,
{
    if names.len() > floor {
        lemma_joined_grows(names, floor);
        lemma_joined_len(names);
    }
}

proof fn lemma_joined_grows(names: Seq<Seq<u8>>, floor: nat)
    requires
        proper(names),
        floor < names.len(),
    ensures
        joined(names.take(floor as int)).len() < joined(names).len(),
    decreases names.len(),
{
    let shorter = names.drop_last();
    lemma_joined_len_prefix(names);
    if floor < shorter.len() {
        lemma_joined_grows(shorter, floor);
        assert(shorter.take(floor as int) =~= names.take(floor as int));
    } else {
        assert(names.take(floor as int) =~= shorter);
    }
}

/// Whether a path begins at the root.
pub open spec fn is_absolute(path: Seq<u8>) -> bool {
    path.len() > 0 && path[0] == SLASH
}

/// Why an absolute path cannot be normalized in a buffer of `capacity` bytes.
pub open spec fn absolute_error(path: Seq<u8>, capacity: nat) -> Option<Errno> {
    if !is_absolute(path) {
        Some(Errno::EINVAL)
    } else if !stages_fit(Seq::empty(), components(path), 0, capacity) {
        Some(Errno::ENAMETOOLONG)
    } else {
        None
    }
}

/// Writes the normal form of an absolute path to `output`: single slashes, no
/// `.` and no `..`. Every stage of the walk must fit. A path that is refused as
/// too long leaves a beginning of the walk in `output`.
pub fn normalize_absolute<'a, const N: usize>(
    path: &str,
    output: &'a mut InlineString<N>,
) -> (result: Result<&'a str>)
    ensures
        match result {
            Ok(text) => absolute_error(path.spec_bytes(), N as nat) is None && final(output)@
                == path_of(normal_names(path.spec_bytes())) && text.spec_bytes() == final(output)@,
            Err(error) => absolute_error(path.spec_bytes(), N as nat) == Some(error),
        },
        !is_absolute(path.spec_bytes()) ==> final(output)@ == old(output)@,
        is_absolute(path.spec_bytes()) && N == 0 ==> final(output)@ == Seq::<u8>::empty(),
        is_absolute(path.spec_bytes()) && N > 0 && result is Err ==> broken_off(
            Seq::empty(),
            components(path.spec_bytes()),
            0,
            N as nat,
            final(output)@,
        ),
{
    let bytes = path.as_bytes();
    if bytes.len() == 0 || bytes[0] != SLASH {
        return Err(Errno::Invalid);
    }
    let ghost parts = components(path.spec_bytes());
    proof {
        assert(parts.take(0) =~= Seq::<Seq<u8>>::empty());
    }
    output.clear();
    if output.push_byte(SLASH).is_err() {
        proof {
            assert(path_of(resolved(Seq::empty(), parts.take(0), 0)).len() == 1);
        }
        return Err(Errno::NameTooLong);
    }
    assert(output@ =~= seq![SLASH]);
    let root: [u8; 1] = [SLASH];
    assert(root@ =~= seq![SLASH]);
    assert(Seq::<Seq<u8>>::empty().take(0) =~= Seq::<Seq<u8>>::empty());
    proof {
        encode_utf8_valid_utf8(path@);
    }
    let walked = walk(bytes, output, root.as_slice(), Ghost(Seq::empty()), Ghost(0));
    match walked {
        Ok(_) => {
            Ok(output.as_str())
        },
        Err(error) => Err(error),
    }
}

/// The index of the last `byte` in `text`, or -1.
pub open spec fn last_position(text: Seq<u8>, byte: u8) -> int
    decreases text.len(),
{
    if text.len() == 0 {
        -1
    } else if text.last() == byte {
        text.len() - 1
    } else {
        last_position(text.drop_last(), byte)
    }
}

/// What stands before the last slash of `path`, or the root.
pub open spec fn parent_of(path: Seq<u8>) -> Seq<u8> {
    let at = last_position(path, SLASH);
    if at <= 0 {
        seq![SLASH]
    } else {
        path.take(at)
    }
}

pub proof fn lemma_slash_literal()
    ensures
        "/".spec_bytes() == seq![SLASH],
{
    reveal_strlit("/");
    vstd::string::is_ascii_spec_bytes("/");
    assert("/".spec_bytes() =~= seq![SLASH]);
}

pub fn parent(path: &str) -> (parent: &str)
    ensures
        parent.spec_bytes() == parent_of(path.spec_bytes()),
{
    proof {
        lemma_slash_literal();
        encode_utf8_valid_utf8(path@);
    }
    let bytes = path.as_bytes();
    let mut end: usize = bytes.len();
    assert(bytes@.take(end as int) =~= bytes@);
    while end > 0
        invariant
            end <= bytes@.len(),
            bytes@ == path.spec_bytes(),
            valid_utf8(path.spec_bytes()),
            "/".spec_bytes() == seq![SLASH],
            last_position(bytes@, SLASH) == last_position(bytes@.take(end as int), SLASH),
        decreases end,
    {
        assert(bytes@.take(end as int).drop_last() =~= bytes@.take(end - 1));
        end -= 1;
        if bytes[end] == SLASH {
            if end == 0 {
                return "/";
            }
            proof {
                text::lemma_cut_at_ascii(bytes@, end as int);
            }
            let (head, _tail) = path.split_at(end);
            assert(bytes@.subrange(0, end as int) =~= bytes@.take(end as int));
            return head;
        }
    }
    "/"
}

/// Whether `names` begins with `root`.
pub open spec fn lies_in(names: Seq<Seq<u8>>, root: Seq<Seq<u8>>) -> bool {
    root.len() <= names.len() && names.take(root.len() as int) == root
}

/// The names from which a path given in a root is walked: the root for an absolute
/// path, else the current directory, or the root if that lies outside it.
pub open spec fn walk_start(root: Seq<u8>, cwd: Seq<u8>, input: Seq<u8>) -> Seq<Seq<u8>> {
    if is_absolute(input) || !lies_in(normal_names(cwd), normal_names(root)) {
        normal_names(root)
    } else {
        normal_names(cwd)
    }
}

/// The names to which `input` leads in the root `root`, from the directory `cwd`.
pub open spec fn names_in_root(root: Seq<u8>, cwd: Seq<u8>, input: Seq<u8>) -> Seq<Seq<u8>> {
    resolved(walk_start(root, cwd, input), components(input), normal_names(root).len())
}

/// Why `input` cannot be resolved in the root, if it cannot.
pub open spec fn in_root_error(
    root: Seq<u8>,
    cwd: Seq<u8>,
    input: Seq<u8>,
    capacity: nat,
) -> Option<Errno> {
    if absolute_error(root, capacity) is Some {
        absolute_error(root, capacity)
    } else if absolute_error(cwd, capacity) is Some {
        absolute_error(cwd, capacity)
    } else if !stages_fit(
        walk_start(root, cwd, input),
        components(input),
        normal_names(root).len(),
        capacity,
    ) {
        Some(Errno::ENAMETOOLONG)
    } else {
        None
    }
}

proof fn lemma_joined_front(names: Seq<Seq<u8>>)
    requires
        names.len() > 0,
    ensures
        joined(names) == seq![SLASH] + names[0] + joined(names.skip(1)),
    decreases names.len(),
{
    if names.len() == 1 {
        assert(names.drop_last() =~= Seq::<Seq<u8>>::empty());
        assert(names.skip(1) =~= Seq::<Seq<u8>>::empty());
        assert(joined(names) =~= seq![SLASH] + names[0] + joined(names.skip(1)));
    } else {
        let shorter = names.drop_last();
        lemma_joined_front(shorter);
        assert(names.skip(1).drop_last() =~= shorter.skip(1));
        assert(joined(names) =~= seq![SLASH] + names[0] + joined(names.skip(1)));
    }
}

proof fn lemma_proper_skip(names: Seq<Seq<u8>>)
    requires
        proper(names),
        names.len() > 0,
    ensures
        proper(names.skip(1)),
{
    assert forall|k: int| 0 <= k < names.skip(1).len() implies #[trigger] names.skip(1)[k].len() > 0
        && !names.skip(1)[k].contains(SLASH) && !is_current(names.skip(1)[k]) && !is_parent(
        names.skip(1)[k],
    ) by {
        assert(names[k + 1].len() > 0);
    }
}

/// If the text of `root` with a slash behind it begins the text of `names`, then
/// `names` begins with `root`.
proof fn lemma_text_prefix(names: Seq<Seq<u8>>, root: Seq<Seq<u8>>)
    requires
        proper(names),
        proper(root),
        joined(root).len() < joined(names).len(),
        joined(names).take(joined(root).len() as int) == joined(root),
        joined(names)[joined(root).len() as int] == SLASH,
    ensures
        lies_in(names, root),
    decreases root.len(),
{
    if root.len() == 0 {
        assert(names.take(0) =~= root);
    } else {
        lemma_joined_len(names);
        assert(names.len() > 0);
        lemma_joined_front(names);
        lemma_joined_front(root);
        let jn = joined(names);
        let jr = joined(root);
        let n0 = names[0];
        let r0 = root[0];
        let nt = names.skip(1);
        let rt = root.skip(1);
        lemma_proper_skip(names);
        lemma_proper_skip(root);
        lemma_joined_len(nt);
        lemma_joined_len(rt);
        assert(n0.len() > 0 && !n0.contains(SLASH));
        assert(r0.len() > 0 && !r0.contains(SLASH));
        assert forall|i: int| 0 <= i < jr.len() implies jn[i] == jr[i] by {
            assert(jn.take(jr.len() as int)[i] == jr[i]);
        }
        if n0.len() < r0.len() {
            // The byte behind the first name is a slash, or the end.
            assert(jr[1 + n0.len() as int] == r0[n0.len() as int]);
            assert(r0.contains(r0[n0.len() as int]));
            if nt.len() > 0 {
                assert(jn[1 + n0.len() as int] == joined(nt)[0]);
            } else {
                assert(joined(nt).len() == 0);
                assert(jn.len() == 1 + n0.len());
            }
            assert(false);
        }
        if r0.len() < n0.len() {
            assert(jn[1 + r0.len() as int] == n0[r0.len() as int]);
            assert(n0.contains(n0[r0.len() as int]));
            if rt.len() > 0 {
                assert(jr[1 + r0.len() as int] == joined(rt)[0]);
            } else {
                assert(joined(rt).len() == 0);
                assert(jr.len() == 1 + r0.len());
            }
            assert(false);
        }
        assert(n0 =~= r0) by {
            assert forall|i: int| 0 <= i < n0.len() implies n0[i] == r0[i] by {
                assert(jn[1 + i] == n0[i]);
                assert(jr[1 + i] == r0[i]);
            }
        }
        let off = 1 + n0.len();
        assert(joined(nt).take(joined(rt).len() as int) =~= joined(rt)) by {
            assert forall|i: int| 0 <= i < joined(rt).len() implies joined(nt)[i] == joined(rt)[i] by {
                assert(jn[off + i] == joined(nt)[i]);
                assert(jr[off + i] == joined(rt)[i]);
            }
        }
        assert(jn[jr.len() as int] == joined(nt)[joined(rt).len() as int]);
        lemma_text_prefix(nt, rt);
        assert(names.take(root.len() as int) =~= root) by {
            assert forall|k: int| 0 <= k < root.len() implies names[k] == root[k] by {
                if k > 0 {
                    assert(nt.take(rt.len() as int)[k - 1] == rt[k - 1]);
                    assert(nt[k - 1] == names[k]);
                    assert(rt[k - 1] == root[k]);
                }
            }
        }
    }
}

proof fn lemma_joined_concat(a: Seq<Seq<u8>>, b: Seq<Seq<u8>>)
    ensures
        joined(a + b) == joined(a) + joined(b),
    decreases b.len(),
{
    if b.len() == 0 {
        assert(a + b =~= a);
        assert(joined(a) + joined(b) =~= joined(a));
    } else {
        lemma_joined_concat(a, b.drop_last());
        assert((a + b).drop_last() =~= a + b.drop_last());
        assert(joined(a + b) =~= joined(a) + joined(b));
    }
}

/// `names` begins with `root` exactly when the text of `root` is that of the file
/// system root, the text of `names`, or a beginning of it that ends at a slash.
proof fn lemma_lies_in_text(names: Seq<Seq<u8>>, root: Seq<Seq<u8>>)
    requires
        proper(names),
        proper(root),
    ensures
        lies_in(names, root) <==> {
            let n = path_of(names);
            let r = path_of(root);
            r == seq![SLASH] || n == r || (r.len() < n.len() && n.take(r.len() as int) == r
                && n[r.len() as int] == SLASH)
        },
{
    let n = path_of(names);
    let r = path_of(root);
    lemma_joined_len(names);
    lemma_joined_len(root);
    if root.len() == 0 {
        assert(names.take(0) =~= root);
    } else {
        assert(r.len() >= 2);
        if lies_in(names, root) {
            let rest = names.skip(root.len() as int);
            assert(names =~= root + rest);
            lemma_joined_concat(root, rest);
            if rest.len() > 0 {
                assert forall|k: int| 0 <= k < rest.len() implies #[trigger] rest[k].len() > 0
                    && !rest[k].contains(SLASH) && !is_current(rest[k]) && !is_parent(rest[k]) by {
                    assert(names[k + root.len()].len() > 0);
                }
                lemma_joined_len(rest);
                assert(n.take(r.len() as int) =~= r);
                assert(n[r.len() as int] == joined(rest)[0]);
            } else {
                assert(names =~= root);
            }
        }
        if n == r {
            assert(names.len() > 0);
            let ns = n + seq![SLASH];
            // A common text with a slash behind it decides.
            lemma_text_equal(names, root);
            assert(names.take(root.len() as int) =~= root);
        } else if r.len() < n.len() && n.take(r.len() as int) == r && n[r.len() as int] == SLASH {
            assert(names.len() > 0);
            lemma_text_prefix(names, root);
        }
    }
}

/// A path determines its names.
pub proof fn lemma_text_equal(names: Seq<Seq<u8>>, root: Seq<Seq<u8>>)
    requires
        proper(names),
        proper(root),
        joined(names) == joined(root),
    ensures
        names == root,
{
    let tail = seq![seq![0u8]];
    let longer = names + tail;
    assert(proper(longer)) by {
        assert forall|k: int| 0 <= k < longer.len() implies #[trigger] longer[k].len() > 0
            && !longer[k].contains(SLASH) && !is_current(longer[k]) && !is_parent(longer[k]) by {
            if k < names.len() {
                assert(names[k].len() > 0);
            } else {
                assert(longer[k] =~= seq![0u8]);
                assert(longer[k][0] == 0u8);
            }
        }
    }
    let longer_root = root + tail;
    assert(proper(longer_root)) by {
        assert forall|k: int| 0 <= k < longer_root.len() implies #[trigger] longer_root[k].len() > 0
            && !longer_root[k].contains(SLASH) && !is_current(longer_root[k]) && !is_parent(
            longer_root[k],
        ) by {
            if k < root.len() {
                assert(root[k].len() > 0);
            } else {
                assert(longer_root[k] =~= seq![0u8]);
                assert(longer_root[k][0] == 0u8);
            }
        }
    }
    lemma_joined_concat(names, tail);
    lemma_joined_concat(root, tail);
    lemma_joined_front(tail);
    assert(joined(longer).take(joined(root).len() as int) =~= joined(root));
    assert(joined(longer)[joined(root).len() as int] == SLASH);
    lemma_text_prefix(longer, root);
    assert(joined(longer_root).take(joined(names).len() as int) =~= joined(names));
    lemma_text_prefix(longer_root, names);
    if root.len() > names.len() {
        assert(longer.take(root.len() as int)[names.len() as int] == seq![0u8]);
        assert(root.len() == names.len() + 1);
        lemma_joined_concat(names, root.skip(names.len() as int));
        assert(root =~= longer);
    } else if names.len() > root.len() {
        assert(names =~= longer_root);
    } else {
        assert(names =~= root) by {
            assert(longer.take(root.len() as int) =~= names);
        }
    }
}

/// Resolves `input` in the root `root` from the directory `cwd`, and writes the
/// normal form to `output`. The result never leaves the root. A refused input
/// leaves `output` as it was, or with a beginning of the walk.
pub fn normalize_in_root<'a, const N: usize>(
    root: &str,
    cwd: &str,
    input: &str,
    output: &'a mut InlineString<N>,
) -> (result: Result<&'a str>)
    ensures
        match result {
            Ok(text) => in_root_error(
                root.spec_bytes(),
                cwd.spec_bytes(),
                input.spec_bytes(),
                N as nat,
            ) is None && final(output)@ == path_of(
                names_in_root(root.spec_bytes(), cwd.spec_bytes(), input.spec_bytes()),
            ) && text.spec_bytes() == final(output)@,
            Err(error) => in_root_error(
                root.spec_bytes(),
                cwd.spec_bytes(),
                input.spec_bytes(),
                N as nat,
            ) == Some(error),
        },
        (absolute_error(root.spec_bytes(), N as nat) is Some || absolute_error(
            cwd.spec_bytes(),
            N as nat,
        ) is Some) ==> final(output)@ == old(output)@,
        absolute_error(root.spec_bytes(), N as nat) is None && absolute_error(
            cwd.spec_bytes(),
            N as nat,
        ) is None && result is Err ==> broken_off(
            walk_start(root.spec_bytes(), cwd.spec_bytes(), input.spec_bytes()),
            components(input.spec_bytes()),
            normal_names(root.spec_bytes()).len(),
            N as nat,
            final(output)@,
        ),
{
    let ghost root_names = normal_names(root.spec_bytes());
    let ghost cwd_names = normal_names(cwd.spec_bytes());
    let mut anchor = InlineString::<N>::new();
    if let Err(error) = normalize_absolute(root, &mut anchor) {
        return Err(error);
    }
    let mut base = InlineString::<N>::new();
    if let Err(error) = normalize_absolute(cwd, &mut base) {
        return Err(error);
    }
    proof {
        text::lemma_split(root.spec_bytes(), SLASH);
        text::lemma_split(cwd.spec_bytes(), SLASH);
        lemma_resolved_proper(Seq::empty(), components(root.spec_bytes()), 0);
        lemma_resolved_proper(Seq::empty(), components(cwd.spec_bytes()), 0);
        lemma_lies_in_text(cwd_names, root_names);
    }
    let anchor_bytes = anchor.as_bytes();
    let base_bytes = base.as_bytes();
    let anchored = (anchor_bytes.len() == 1 && anchor_bytes[0] == SLASH) || text::equal(
        base_bytes,
        anchor_bytes,
    ) || (text::starts_with(base_bytes, anchor_bytes) && base_bytes.len() > anchor_bytes.len()
        && base_bytes[anchor_bytes.len()] == SLASH);
    assert(anchored == lies_in(cwd_names, root_names)) by {
        if anchor@.len() == 1 && anchor@[0] == SLASH {
            assert(anchor@ =~= seq![SLASH]);
        }
    }
    let input_bytes = input.as_bytes();
    let absolute = input_bytes.len() > 0 && input_bytes[0] == SLASH;
    output.clear();
    let ghost start = walk_start(root.spec_bytes(), cwd.spec_bytes(), input.spec_bytes());
    if absolute || !anchored {
        let _ = output.push_bytes(anchor_bytes);
        assert(output@ =~= path_of(root_names));
        assert(root_names.take(root_names.len() as int) =~= root_names);
    } else {
        let _ = output.push_bytes(base_bytes);
        assert(output@ =~= path_of(cwd_names));
    }
    proof {
        encode_utf8_valid_utf8(input@);
    }
    let walked = walk(
        input_bytes,
        output,
        anchor_bytes,
        Ghost(start),
        Ghost(root_names.len()),
    );
    match walked {
        Ok(_) => {
            Ok(output.as_str())
        },
        Err(error) => Err(error),
    }
}

/// A path resolved in a root never leaves the root.
pub proof fn law_stays_in_root(root: Seq<u8>, cwd: Seq<u8>, input: Seq<u8>)
    ensures
        lies_in(names_in_root(root, cwd, input), normal_names(root)),
{
    let floor = normal_names(root).len();
    let start = walk_start(root, cwd, input);
    assert(normal_names(root).take(floor as int) =~= normal_names(root));
    lemma_floor_kept(start, components(input), floor);
}

proof fn lemma_floor_kept(names: Seq<Seq<u8>>, parts: Seq<Seq<u8>>, floor: nat)
    requires
        floor <= names.len(),
    ensures
        floor <= resolved(names, parts, floor).len(),
        resolved(names, parts, floor).take(floor as int) == names.take(floor as int),
    decreases parts.len(),
{
    if parts.len() > 0 {
        lemma_floor_kept(names, parts.drop_last(), floor);
        assert(resolved(names, parts, floor).take(floor as int) =~= resolved(
            names,
            parts.drop_last(),
            floor,
        ).take(floor as int));
    }
}

/// The names of a normal form are not empty, hold no slash and are neither `.` nor
/// `..`.
pub proof fn law_normal_names_are_proper(path: Seq<u8>)
    ensures
        proper(normal_names(path)),
{
    text::lemma_split(path, SLASH);
    lemma_resolved_proper(Seq::empty(), components(path), 0);
}

proof fn lemma_split_joined(name: Seq<u8>, names: Seq<Seq<u8>>)
    requires
        proper(names),
        !name.contains(SLASH),
    ensures
        components(name + joined(names)) == seq![name] + names,
    decreases names.len(),
{
    let text = name + joined(names);
    text::lemma_position(text, SLASH);
    let at = text::position(text, SLASH);
    if names.len() == 0 {
        assert(text =~= name);
        assert(seq![name] + names =~= seq![name]);
    } else {
        lemma_joined_front(names);
        lemma_proper_skip(names);
        assert(text[name.len() as int] == SLASH);
        if at < name.len() {
            assert(name[at as int] == SLASH);
            assert(name.contains(SLASH));
        }
        assert(at == name.len());
        assert(text.take(at as int) =~= name);
        assert(text.skip(at as int + 1) =~= names[0] + joined(names.skip(1)));
        assert(names[0].len() > 0);
        lemma_split_joined(names[0], names.skip(1));
        assert(seq![name] + (seq![names[0]] + names.skip(1)) =~= seq![name] + names);
    }
}

proof fn lemma_resolve_proper(first: Seq<Seq<u8>>, names: Seq<Seq<u8>>)
    requires
        proper(names),
    ensures
        resolved(first, names, 0) == first + names,
    decreases names.len(),
{
    if names.len() > 0 {
        assert forall|k: int| 0 <= k < names.len() - 1 implies #[trigger] names.drop_last()[k].len() > 0
            && !names.drop_last()[k].contains(SLASH) && !is_current(names.drop_last()[k])
            && !is_parent(names.drop_last()[k]) by {
            assert(names[k].len() > 0);
        }
        lemma_resolve_proper(first, names.drop_last());
        assert(names[names.len() - 1].len() > 0);
        assert((first + names.drop_last()).push(names.last()) =~= first + names);
    } else {
        assert(first + names =~= first);
    }
}

proof fn lemma_resolved_concat(names: Seq<Seq<u8>>, a: Seq<Seq<u8>>, b: Seq<Seq<u8>>, floor: nat)
    ensures
        resolved(names, a + b, floor) == resolved(resolved(names, a, floor), b, floor),
    decreases b.len(),
{
    if b.len() == 0 {
        assert(a + b =~= a);
    } else {
        lemma_resolved_concat(names, a, b.drop_last(), floor);
        assert((a + b).drop_last() =~= a + b.drop_last());
    }
}

proof fn lemma_root_components()
    ensures
        components(seq![SLASH]) == seq![Seq::<u8>::empty(), Seq::<u8>::empty()],
{
    let text = seq![SLASH];
    let blank = Seq::<u8>::empty();
    assert(text::position(text, SLASH) == 0);
    assert(text.take(0) =~= blank);
    assert(text.skip(1) =~= blank);
    assert(text::split(blank, SLASH) =~= seq![blank]);
    assert(components(text) =~= seq![blank, blank]);
}

/// The stages of walking a normal form are its beginnings.
proof fn lemma_normal_stage(names: Seq<Seq<u8>>, k: int)
    requires
        proper(names),
        0 <= k <= components(path_of(names)).len(),
    ensures
        ({
            let at = if k <= 1 || names.len() == 0 {
                0
            } else {
                k - 1
            };
            &&& 0 <= at <= names.len()
            &&& resolved(Seq::empty(), components(path_of(names)).take(k), 0) == names.take(at)
            &&& k == components(path_of(names)).len() ==> names.take(at) == names
        }),
{
    let none = Seq::<Seq<u8>>::empty();
    let blank = Seq::<u8>::empty();
    let parts = components(path_of(names));
    reveal_with_fuel(resolved, 3);
    assert(names.take(0) =~= none);
    if names.len() == 0 {
        lemma_root_components();
        assert(names =~= none);
        assert(parts.take(k).len() == k);
        assert forall|i: int| 0 <= i < k implies #[trigger] parts.take(k)[i] == blank by {}
        if k > 0 {
            assert(parts.take(k).drop_last() =~= parts.take(k - 1));
            if k > 1 {
                assert(parts.take(k - 1).drop_last() =~= none);
            }
        }
    } else {
        lemma_split_joined(blank, names);
        assert(blank + joined(names) =~= joined(names));
        if k == 0 {
            assert(parts.take(0) =~= none);
        } else {
            let front = names.take(k - 1);
            assert(parts.take(k) =~= seq![blank] + front);
            assert(proper(front)) by {
                assert forall|i: int| 0 <= i < front.len() implies #[trigger] front[i].len() > 0
                    && !front[i].contains(SLASH) && !is_current(front[i]) && !is_parent(front[i]) by {
                    assert(names[i].len() > 0);
                }
            }
            lemma_resolved_concat(none, seq![blank], front, 0);
            assert(seq![blank].drop_last() =~= none);
            lemma_resolve_proper(none, front);
            assert(none + front =~= front);
            assert(names.take(names.len() as int) =~= names);
        }
    }
}

/// Normalizing a normal form changes nothing, and takes no more room than the normal form
/// had taken: in a buffer of the same capacity it succeeds again, with the same text.
pub proof fn law_normal_form_is_fixed(path: Seq<u8>, capacity: nat)
    ensures
        normal_names(path_of(normal_names(path))) == normal_names(path),
        path_of(normal_names(path_of(normal_names(path)))) == path_of(normal_names(path)),
        absolute_error(path, capacity) is None ==> absolute_error(
            path_of(normal_names(path)),
            capacity,
        ) is None,
{
    law_normal_names_are_proper(path);
    let names = normal_names(path);
    let text = path_of(names);
    let parts = components(text);
    lemma_normal_stage(names, parts.len() as int);
    assert(parts.take(parts.len() as int) =~= parts);
    lemma_joined_len(names);
    if absolute_error(path, capacity) is None {
        let walked = components(path);
        assert(walked.take(walked.len() as int) =~= walked);
        assert(text.len() <= capacity);
        assert forall|k: int| 0 <= k <= parts.len() implies path_of(
            #[trigger] resolved(Seq::empty(), parts.take(k), 0),
        ).len() <= capacity by {
            lemma_normal_stage(names, k);
            let at = if k <= 1 || names.len() == 0 {
                0
            } else {
                k - 1
            };
            if at < names.len() {
                lemma_joined_grows(names, at as nat);
            } else {
                assert(names.take(at) =~= names);
            }
        }
    }
}

} // verus!
