//! Socket paths: how the host's session is named.

use vstd::prelude::*;
use crate::error::BeaconError;
use crate::text::{chars_of, copy_of, holds_control, split, text_of};

verus! {

/// The directories one is in after a segment: nothing and `.` stay, `..` leaves
/// one unless there is none to leave.
pub open spec fn entered(parts: Seq<Seq<char>>, segment: Seq<char>) -> Seq<Seq<char>> {
    if segment.len() == 0 || segment == seq!['.'] {
        parts
    } else if segment == seq!['.', '.'] {
        if parts.len() == 0 {
            parts
        } else {
            parts.drop_last()
        }
    } else {
        parts.push(segment)
    }
}

/// The directories one is in after all segments.
pub open spec fn resolved(segments: Seq<Seq<char>>) -> Seq<Seq<char>>
    decreases segments.len(),
{
    if segments.len() == 0 {
        Seq::empty()
    } else {
        entered(resolved(segments.drop_last()), segments.last())
    }
}

/// Each part behind a slash.
pub open spec fn slashed(parts: Seq<Seq<char>>) -> Seq<char>
    decreases parts.len(),
{
    if parts.len() == 0 {
        Seq::empty()
    } else {
        slashed(parts.drop_last()).push('/') + parts.last()
    }
}

/// The absolute path through the parts.
pub open spec fn absolute(parts: Seq<Seq<char>>) -> Seq<char> {
    if parts.len() == 0 {
        seq!['/']
    } else {
        slashed(parts)
    }
}

/// A path that can name a session.
pub open spec fn names_session(path: Seq<char>) -> bool {
    path.len() > 0 && path[0] == '/' && !crate::text::has_control(path)
}

/// The lexical normal form of an absolute path. Links keep their spelling.
pub open spec fn normalized(path: Seq<char>) -> Seq<char> {
    absolute(resolved(crate::text::pieces(path, '/')))
}

/// Goes through one segment.
fn enter(parts: &mut Vec<Vec<char>>, segment: &Vec<char>)
    ensures
        crate::text::spelled(final(parts)@) == entered(crate::text::spelled(old(parts)@), segment@),
{
    let ghost start = crate::text::spelled(parts@);
    if segment.len() == 0 {
        return ;
    }
    if segment.len() == 1 && segment[0] == '.' {
        assert(segment@ =~= seq!['.']);
        return ;
    }
    if segment.len() == 2 && segment[0] == '.' && segment[1] == '.' {
        assert(segment@ =~= seq!['.', '.']);
        if parts.len() > 0 {
            let _ = parts.pop();
            assert(crate::text::spelled(parts@) =~= start.drop_last());
        }
        return ;
    }
    proof {
        if segment@ == seq!['.'] {
            assert(segment@[0] == '.');
        }
        if segment@ == seq!['.', '.'] {
            assert(segment@[0] == '.' && segment@[1] == '.');
        }
    }
    parts.push(copy_of(segment));
    assert(crate::text::spelled(parts@) =~= start.push(segment@));
}

/// Names a session by the lexical normal form of its socket path, also while the
/// host restarts and the socket does not exist.
pub fn normalize_socket(socket: &str) -> (normal: Result<String, BeaconError>)
    ensures
        match normal {
            Ok(normal) => names_session(socket@) && normal@ == normalized(socket@),
            Err(error) => error is SocketPath && !names_session(socket@),
        },
{
    let chars = chars_of(socket);
    if chars.len() == 0 || chars[0] != '/' || holds_control(socket) {
        return Err(BeaconError::SocketPath);
    }
    let segments = split(socket, '/');
    let ghost all = crate::text::spelled(segments@);
    let mut parts: Vec<Vec<char>> = Vec::new();
    let mut i: usize = 0;
    assert(crate::text::spelled(parts@) =~= Seq::<Seq<char>>::empty());
    assert(all.take(0) =~= Seq::<Seq<char>>::empty());
    while i < segments.len()
        invariant
            i <= segments.len(),
            all == crate::text::spelled(segments@),
            crate::text::spelled(parts@) == resolved(all.take(i as int)),
        decreases segments.len() - i,
    {
        assert(all.take(i + 1).drop_last() =~= all.take(i as int));
        enter(&mut parts, &segments[i]);
        i = i + 1;
    }
    assert(all.take(segments.len() as int) =~= all);
    Ok(text_of(&spell(&parts)))
}

/// The absolute path through the parts.
fn spell(parts: &Vec<Vec<char>>) -> (path: Vec<char>)
    ensures
        path@ == absolute(crate::text::spelled(parts@)),
{
    let mut path: Vec<char> = Vec::new();
    if parts.len() == 0 {
        path.push('/');
        assert(path@ =~= seq!['/']);
        return path;
    }
    let ghost all = crate::text::spelled(parts@);
    let mut i: usize = 0;
    assert(all.take(0) =~= Seq::<Seq<char>>::empty());
    while i < parts.len()
        invariant
            i <= parts.len(),
            all == crate::text::spelled(parts@),
            path@ == slashed(all.take(i as int)),
        decreases parts.len() - i,
    {
        assert(all.take(i + 1).drop_last() =~= all.take(i as int));
        path.push('/');
        let ghost start = path@;
        let part = &parts[i];
        let mut k: usize = 0;
        assert(path@ =~= start + part@.take(0));
        while k < part.len()
            invariant
                k <= part.len(),
                path@ == start + part@.take(k as int),
            decreases part.len() - k,
        {
            path.push(part[k]);
            assert(path@ =~= start + part@.take(k + 1));
            k = k + 1;
        }
        assert(part@.take(part.len() as int) =~= part@);
        i = i + 1;
    }
    assert(all.take(parts.len() as int) =~= all);
    path
}

/// A text without slashes and control characters.
spec fn plain(text: Seq<char>) -> bool {
    forall|i: int|
        0 <= i < text.len() ==> #[trigger] text[i] != '/' && !crate::text::is_control(text[i])
}

/// A plain part that no segment stands for: neither empty nor made of dots alone.
spec fn clean(part: Seq<char>) -> bool {
    plain(part) && part.len() > 0 && part != seq!['.'] && part != seq!['.', '.']
}

spec fn all_plain(parts: Seq<Seq<char>>) -> bool {
    forall|i: int| 0 <= i < parts.len() ==> plain(#[trigger] parts[i])
}

spec fn all_clean(parts: Seq<Seq<char>>) -> bool {
    forall|i: int| 0 <= i < parts.len() ==> clean(#[trigger] parts[i])
}

proof fn lemma_segments_are_plain(path: Seq<char>)
    requires
        !crate::text::has_control(path),
    ensures
        all_plain(crate::text::pieces(path, '/')),
        crate::text::pieces(path, '/').len() > 0,
    decreases path.len(),
{
    if path.len() > 0 {
        let rest = path.drop_last();
        assert(!crate::text::has_control(rest)) by {
            if crate::text::has_control(rest) {
                let i = choose|i: int|
                    0 <= i < rest.len() && crate::text::is_control(#[trigger] rest[i]);
                assert(crate::text::is_control(path[i]));
            }
        }
        lemma_segments_are_plain(rest);
        let last = path.len() - 1;
        assert(!crate::text::is_control(path[last]));
        assert(plain(crate::text::pieces(rest, '/').last()));
    }
}

proof fn lemma_resolved_is_clean(segments: Seq<Seq<char>>)
    requires
        all_plain(segments),
    ensures
        all_clean(resolved(segments)),
    decreases segments.len(),
{
    if segments.len() > 0 {
        lemma_resolved_is_clean(segments.drop_last());
        assert(plain(segments.last()));
    }
}

proof fn lemma_segments_of_slashed(parts: Seq<Seq<char>>)
    requires
        all_plain(parts),
    ensures
        crate::text::pieces(slashed(parts), '/') == seq![Seq::<char>::empty()] + parts,
    decreases parts.len(),
{
    if parts.len() == 0 {
        assert(crate::text::pieces(slashed(parts), '/') =~= seq![Seq::<char>::empty()] + parts);
    } else {
        let fewer = parts.drop_last();
        lemma_segments_of_slashed(fewer);
        assert(plain(parts.last()));
        crate::text::lemma_another_piece(slashed(fewer), parts.last(), '/');
        assert((seq![Seq::<char>::empty()] + fewer).push(parts.last()) =~= seq![
            Seq::<char>::empty(),
        ] + parts);
    }
}

proof fn lemma_clean_parts_resolve_to_themselves(parts: Seq<Seq<char>>)
    requires
        all_clean(parts),
    ensures
        resolved(seq![Seq::<char>::empty()] + parts) == parts,
    decreases parts.len(),
{
    let all = seq![Seq::<char>::empty()] + parts;
    if parts.len() == 0 {
        assert(all.drop_last() =~= Seq::<Seq<char>>::empty());
        assert(resolved(all.drop_last()) =~= Seq::<Seq<char>>::empty());
        assert(parts =~= Seq::<Seq<char>>::empty());
    } else {
        assert(all.drop_last() =~= seq![Seq::<char>::empty()] + parts.drop_last());
        lemma_clean_parts_resolve_to_themselves(parts.drop_last());
        assert(clean(parts.last()));
        assert(parts.drop_last().push(parts.last()) =~= parts);
    }
}

proof fn lemma_slashed_is_free_of_control(parts: Seq<Seq<char>>)
    requires
        all_plain(parts),
    ensures
        !crate::text::has_control(slashed(parts)),
        parts.len() > 0 ==> slashed(parts).len() > 0 && slashed(parts)[0] == '/',
    decreases parts.len(),
{
    if parts.len() > 0 {
        let fewer = parts.drop_last();
        lemma_slashed_is_free_of_control(fewer);
        let start = slashed(fewer).push('/');
        assert forall|i: int| 0 <= i < slashed(parts).len() implies !crate::text::is_control(
            #[trigger] slashed(parts)[i],
        ) by {
            if i < slashed(fewer).len() {
                assert(slashed(parts)[i] == slashed(fewer)[i]);
            } else if i > slashed(fewer).len() {
                assert(plain(parts.last()));
                assert(slashed(parts)[i] == parts.last()[i - start.len()]);
            }
        }
    }
}

/// Normal form is final: a normalized session path names a session, and
/// normalizing it again gives the same path.
pub proof fn law_normal_form_is_final(path: Seq<char>)
    requires
        names_session(path),
    ensures
        names_session(normalized(path)),
        normalized(normalized(path)) == normalized(path),
{
    let parts = resolved(crate::text::pieces(path, '/'));
    lemma_segments_are_plain(path);
    lemma_resolved_is_clean(crate::text::pieces(path, '/'));
    assert(all_plain(parts)) by {
        assert forall|i: int| 0 <= i < parts.len() implies plain(#[trigger] parts[i]) by {
            assert(clean(parts[i]));
        }
    }
    lemma_slashed_is_free_of_control(parts);
    if parts.len() == 0 {
        let root = seq!['/'];
        assert(root.drop_last() =~= Seq::<char>::empty());
        assert(crate::text::pieces(root.drop_last(), '/') =~= seq![Seq::<char>::empty()]);
        assert(crate::text::pieces(root, '/') =~= seq![Seq::<char>::empty(), Seq::<char>::empty()]);
        let two = crate::text::pieces(root, '/');
        assert(two.drop_last() =~= seq![Seq::<char>::empty()]);
        assert(two.drop_last().drop_last() =~= Seq::<Seq<char>>::empty());
        assert(two.drop_last().last() == Seq::<char>::empty());
        assert(resolved(two.drop_last().drop_last()) =~= Seq::<Seq<char>>::empty());
        assert(resolved(two.drop_last()) =~= Seq::<Seq<char>>::empty());
        assert(resolved(two) =~= Seq::<Seq<char>>::empty());
        assert(!crate::text::has_control(root));
    } else {
        lemma_segments_of_slashed(parts);
        lemma_clean_parts_resolve_to_themselves(parts);
    }
}

/// A path names a session exactly if it is absolute and holds no control character.
pub proof fn law_sessions_are_absolute_paths(path: Seq<char>)
    ensures
        names_session(path) <==> path.len() > 0 && path[0] == '/' && forall|i: int|
            0 <= i < path.len() ==> !(#[trigger] path[i] as int <= 0x1f || 0x7f <= path[i] as int
                <= 0x9f),
{
    if names_session(path) {
        assert forall|i: int| 0 <= i < path.len() implies !(#[trigger] path[i] as int <= 0x1f
            || 0x7f <= path[i] as int <= 0x9f) by {
            assert(!crate::text::is_control(path[i]));
        }
    }
}

/// The normal form of a path with one more segment: an empty segment and a single dot
/// add nothing; two dots lead back to where a segment was entered from, or stay at the
/// root; any other segment is added behind a slash.
pub proof fn law_normal_form_goes_segment_by_segment(path: Seq<char>, segment: Seq<char>)
    requires
        forall|i: int| 0 <= i < segment.len() ==> #[trigger] segment[i] != '/',
    ensures
        segment.len() == 0 || segment == seq!['.'] ==> normalized(path.push('/') + segment)
            == normalized(path),
        segment.len() > 0 && segment != seq!['.'] && segment != seq!['.', '.'] ==> {
            let next = normalized(path.push('/') + segment);
            &&& next == if normalized(path) == seq!['/'] {
                seq!['/'] + segment
            } else {
                normalized(path).push('/') + segment
            }
            &&& normalized((path.push('/') + segment).push('/') + seq!['.', '.']) == normalized(
                path,
            )
        },
        normalized(path) == seq!['/'] ==> normalized(path.push('/') + seq!['.', '.'])
            == normalized(path),
{
    crate::text::lemma_another_piece(path, segment, '/');
    let all = crate::text::pieces(path, '/');
    let longer = path.push('/') + segment;
    assert(all.push(segment).drop_last() =~= all);
    assert(resolved(crate::text::pieces(longer, '/')) == entered(resolved(all), segment));
    let back = seq!['.', '.'];
    crate::text::lemma_another_piece(path, back, '/');
    assert(all.push(back).drop_last() =~= all);
    crate::text::lemma_another_piece(longer, back, '/');
    assert(crate::text::pieces(longer, '/').push(back).drop_last() =~= crate::text::pieces(
        longer,
        '/',
    ));
    assert(back[0] == '.' && back[1] == '.');
    lemma_root_has_no_parts(path);
    if segment.len() > 0 && segment != seq!['.'] && segment != back {
        let parts = resolved(all);
        assert(parts.push(segment).drop_last() =~= parts);
        if parts.len() == 0 {
            assert(slashed(parts) =~= Seq::<char>::empty());
            assert(slashed(parts).push('/') + segment =~= seq!['/'] + segment);
        }
    }
}

/// Only at the root are there no directories to be in.
proof fn lemma_root_has_no_parts(path: Seq<char>)
    ensures
        normalized(path) == seq!['/'] <==> resolved(crate::text::pieces(path, '/')).len() == 0,
{
    let parts = resolved(crate::text::pieces(path, '/'));
    lemma_parts_are_filled(crate::text::pieces(path, '/'));
    if parts.len() > 0 {
        assert(parts.last().len() > 0);
        assert(normalized(path).len() == slashed(parts.drop_last()).len() + 1
            + parts.last().len());
        assert(seq!['/'].len() == 1);
    }
}

/// No directory on the way has an empty name.
proof fn lemma_parts_are_filled(segments: Seq<Seq<char>>)
    ensures
        forall|i: int|
            0 <= i < resolved(segments).len() ==> (#[trigger] resolved(segments)[i]).len() > 0,
    decreases segments.len(),
{
    if segments.len() > 0 {
        let rest = segments.drop_last();
        lemma_parts_are_filled(rest);
        let parts = resolved(segments);
        assert forall|i: int| 0 <= i < parts.len() implies (#[trigger] parts[i]).len() > 0 by {
            if i < resolved(rest).len() {
                assert(resolved(rest)[i].len() > 0);
            }
        }
    }
}

/// A text without a slash is a single segment, entered from the root.
pub proof fn law_first_segment_starts_at_the_root(segment: Seq<char>)
    requires
        forall|i: int| 0 <= i < segment.len() ==> #[trigger] segment[i] != '/',
    ensures
        segment.len() == 0 || segment == seq!['.'] || segment == seq!['.', '.'] ==> normalized(
            segment,
        ) == seq!['/'],
        segment.len() > 0 && segment != seq!['.'] && segment != seq!['.', '.'] ==> normalized(
            segment,
        ) == seq!['/'] + segment,
{
    crate::text::lemma_one_piece(segment, '/');
    let all = crate::text::pieces(segment, '/');
    assert(all.drop_last() =~= Seq::<Seq<char>>::empty());
    reveal_with_fuel(resolved, 2);
    reveal_with_fuel(slashed, 2);
    let none = Seq::<Seq<char>>::empty();
    assert(none.push(segment).drop_last() =~= none);
    assert(slashed(none.push(segment)) =~= seq!['/'] + segment);
}

} // verus!
