//! The wire codec: join requests, file relay frames and roster frames.
//!
//! A join request is the text `JOIN|` followed by ASCII letters and digits.
//! A file relay frame is binary: one byte holding the length of a username,
//! the username, then the file's bytes. A roster frame is the text `LIST|`
//! followed by the usernames, separated by commas.

use vstd::prelude::*;
use crate::username::{
    all_alnum, all_alnum_from, is_alnum, valid_username, Username, MAX_USERNAME_LEN,
};

verus! {

/// The length of the prefix of a join request and of a roster frame.
pub const PREFIX_LEN: usize = 5;

/// The bytes of `JOIN|`.
pub open spec fn join_prefix() -> Seq<u8> {
    seq![0x4au8, 0x4fu8, 0x49u8, 0x4eu8, 0x7cu8]
}

/// Whether `text` is a join request: `JOIN|`, then letters and digits only.
pub open spec fn is_join_request(text: Seq<u8>) -> bool {
    &&& text.len() >= PREFIX_LEN
    &&& text.subrange(0, PREFIX_LEN as int) == join_prefix()
    &&& all_alnum(text.subrange(PREFIX_LEN as int, text.len() as int))
}

/// The name that a join request asks for: all that follows the prefix.
pub open spec fn join_name(text: Seq<u8>) -> Seq<u8> {
    text.subrange(PREFIX_LEN as int, text.len() as int)
}

/// Reads a join request. The result is the requested name, of any length,
/// or `None` where `text` is no join request.
pub fn decode_join(text: &Vec<u8>) -> (r: Option<Vec<u8>>)
    ensures
        r is Some <==> is_join_request(text@),
        r matches Some(name) ==> name@ == join_name(text@),
{
    if text.len() < PREFIX_LEN {
        return None;
    }
    let head_ok = text[0] == 0x4a && text[1] == 0x4f && text[2] == 0x49 && text[3] == 0x4e
        && text[4] == 0x7c;
    proof {
        let head = text@.subrange(0, PREFIX_LEN as int);
        if head_ok {
            assert(head =~= join_prefix());
        } else {
            assert(head[0] == text@[0] && head[1] == text@[1] && head[2] == text@[2] && head[3]
                == text@[3] && head[4] == text@[4]);
        }
    }
    if !head_ok || !all_alnum_from(text, PREFIX_LEN) {
        return None;
    }
    let mut name: Vec<u8> = Vec::new();
    let mut i: usize = PREFIX_LEN;
    while i < text.len()
        invariant
            PREFIX_LEN <= i <= text.len(),
            name@ == text@.subrange(PREFIX_LEN as int, i as int),
        decreases text.len() - i,
    {
        name.push(text[i]);
        assert(name@ =~= text@.subrange(PREFIX_LEN as int, i + 1));
        i += 1;
    }
    Some(name)
}

/// A file relay message: a username and a file's bytes. On the way in the
/// username is the player the file is addressed to.
#[derive(Debug, PartialEq, Eq)]
pub struct FileMessage {
    pub username: Username,
    pub file_bytes: Vec<u8>,
}

/// The frame that carries a file relay message.
pub open spec fn file_frame(name: Seq<u8>, file_bytes: Seq<u8>) -> Seq<u8> {
    seq![name.len() as u8] + name + file_bytes
}

/// Whether `frame` carries a file relay message: a length byte, then that
/// many bytes which form a valid username.
pub open spec fn is_file_frame(frame: Seq<u8>) -> bool {
    &&& frame.len() >= 1
    &&& frame.len() >= 1 + frame[0]
    &&& valid_username(frame.subrange(1, 1 + frame[0]))
}

/// The username in a file relay frame.
pub open spec fn file_frame_name(frame: Seq<u8>) -> Seq<u8> {
    frame.subrange(1, 1 + frame[0])
}

/// The file's bytes in a file relay frame.
pub open spec fn file_frame_bytes(frame: Seq<u8>) -> Seq<u8> {
    frame.subrange(1 + frame[0], frame.len() as int)
}

/// Copies the bytes of `src` from `start` up to `end`.
fn copy_range(src: &Vec<u8>, start: usize, end: usize) -> (r: Vec<u8>)
    requires
        start <= end <= src.len(),
    ensures
        r@ == src@.subrange(start as int, end as int),
{
    let mut out: Vec<u8> = Vec::new();
    let mut i: usize = start;
    while i < end
        invariant
            start <= i <= end <= src.len(),
            out@ == src@.subrange(start as int, i as int),
        decreases end - i,
    {
        out.push(src[i]);
        assert(out@ =~= src@.subrange(start as int, i + 1));
        i += 1;
    }
    out
}

/// Reads a file relay frame, or returns `None` where `frame` is none.
pub fn decode_file_message(frame: &Vec<u8>) -> (r: Option<FileMessage>)
    ensures
        r is Some <==> is_file_frame(frame@),
        r matches Some(msg) ==> msg.username@ == file_frame_name(frame@) && msg.file_bytes@
            == file_frame_bytes(frame@),
{
    if frame.len() < 1 {
        return None;
    }
    let n: usize = frame[0] as usize;
    if n > MAX_USERNAME_LEN || frame.len() - 1 < n {
        return None;
    }
    match Username::new(copy_range(frame, 1, 1 + n)) {
        Some(username) => {
            let file_bytes = copy_range(frame, 1 + n, frame.len());
            Some(FileMessage { username, file_bytes })
        },
        None => None,
    }
}

/// Writes a file relay message as a frame.
pub fn encode_file_message(msg: &FileMessage) -> (r: Vec<u8>)
    ensures
        r@ == file_frame(msg.username@, msg.file_bytes@),
{
    let name = msg.username.as_bytes();
    let mut out: Vec<u8> = Vec::new();
    out.push(name.len() as u8);
    let mut i: usize = 0;
    while i < name.len()
        invariant
            i <= name.len(),
            out@ == seq![name.len() as u8] + name@.subrange(0, i as int),
        decreases name.len() - i,
    {
        out.push(name[i]);
        assert(out@ =~= seq![name.len() as u8] + name@.subrange(0, i + 1));
        i += 1;
    }
    assert(name@.subrange(0, name.len() as int) =~= name@);
    let mut j: usize = 0;
    while j < msg.file_bytes.len()
        invariant
            j <= msg.file_bytes.len(),
            out@ == seq![name.len() as u8] + name@ + msg.file_bytes@.subrange(0, j as int),
        decreases msg.file_bytes.len() - j,
    {
        out.push(msg.file_bytes[j]);
        assert(out@ =~= seq![name.len() as u8] + name@ + msg.file_bytes@.subrange(0, j + 1));
        j += 1;
    }
    assert(msg.file_bytes@.subrange(0, msg.file_bytes.len() as int) =~= msg.file_bytes@);
    out
}

/// Decoding the frame of a message gives the message back.
pub proof fn lemma_file_frame_decodes(name: Seq<u8>, file_bytes: Seq<u8>)
    requires
        valid_username(name),
    ensures
        is_file_frame(file_frame(name, file_bytes)),
        file_frame_name(file_frame(name, file_bytes)) == name,
        file_frame_bytes(file_frame(name, file_bytes)) == file_bytes,
{
    let frame = file_frame(name, file_bytes);
    assert(frame[0] == name.len());
    assert(frame.subrange(1, 1 + frame[0]) =~= name);
    assert(frame.subrange(1 + frame[0], frame.len() as int) =~= file_bytes);
}

/// A file relay frame has one encoding: writing what was read from it gives
/// the frame back.
pub proof fn lemma_file_frame_canonical(frame: Seq<u8>)
    requires
        is_file_frame(frame),
    ensures
        file_frame(file_frame_name(frame), file_frame_bytes(frame)) == frame,
{
    assert(file_frame(file_frame_name(frame), file_frame_bytes(frame)) =~= frame);
}

/// The byte between two usernames of a roster frame: a comma.
pub const SEPARATOR: u8 = 0x2c;

/// The bytes of `LIST|`.
pub open spec fn list_prefix() -> Seq<u8> {
    seq![0x4cu8, 0x49u8, 0x53u8, 0x54u8, 0x7cu8]
}

/// The names, in order, with a separator between each two.
pub open spec fn join_names(names: Seq<Seq<u8>>) -> Seq<u8>
    decreases names.len(),
{
    if names.len() == 0 {
        Seq::empty()
    } else if names.len() == 1 {
        names[0]
    } else {
        join_names(names.drop_last()) + seq![SEPARATOR] + names.last()
    }
}

/// The roster frame that lists `names`.
pub open spec fn roster_frame(names: Seq<Seq<u8>>) -> Seq<u8> {
    list_prefix() + join_names(names)
}

/// Whether every name of the list is a valid username.
pub open spec fn valid_roster(names: Seq<Seq<u8>>) -> bool {
    forall|i: int| 0 <= i < names.len() ==> valid_username(#[trigger] names[i])
}

/// Whether `frame` is the roster frame of some list of valid usernames.
pub open spec fn is_roster_frame(frame: Seq<u8>) -> bool {
    exists|names: Seq<Seq<u8>>| valid_roster(names) && roster_frame(names) == frame
}

/// The views of a list of usernames.
pub open spec fn name_views(names: Seq<Username>) -> Seq<Seq<u8>> {
    names.map_values(|name: Username| name@)
}

/// The pieces of `body` that its separators delimit; there is always one
/// piece more than there are separators.
pub open spec fn split_names(body: Seq<u8>) -> Seq<Seq<u8>>
    decreases body.len(),
{
    if body.len() == 0 {
        seq![Seq::empty()]
    } else {
        let head = split_names(body.drop_last());
        if body.last() == SEPARATOR {
            head.push(Seq::empty())
        } else {
            head.drop_last().push(head.last().push(body.last()))
        }
    }
}

/// What a roster frame lists, or `None` where `frame` is no roster frame.
pub open spec fn roster_of(frame: Seq<u8>) -> Option<Seq<Seq<u8>>> {
    if frame.len() < PREFIX_LEN || frame.subrange(0, PREFIX_LEN as int) != list_prefix() {
        None
    } else {
        let body = frame.subrange(PREFIX_LEN as int, frame.len() as int);
        if body.len() == 0 {
            Some(Seq::empty())
        } else if valid_roster(split_names(body)) {
            Some(split_names(body))
        } else {
            None
        }
    }
}

proof fn lemma_split_nonempty(body: Seq<u8>)
    ensures
        split_names(body).len() >= 1,
    decreases body.len(),
{
    if body.len() > 0 {
        lemma_split_nonempty(body.drop_last());
    }
}

/// A piece without separator is the one piece of itself.
proof fn lemma_split_single(piece: Seq<u8>)
    requires
        forall|i: int| 0 <= i < piece.len() ==> piece[i] != SEPARATOR,
    ensures
        split_names(piece) == seq![piece],
    decreases piece.len(),
{
    if piece.len() == 0 {
        assert(piece =~= Seq::<u8>::empty());
    } else {
        let front = piece.drop_last();
        assert forall|i: int| 0 <= i < front.len() implies front[i] != SEPARATOR by {
            assert(front[i] == piece[i]);
        }
        lemma_split_single(front);
        let head = split_names(piece.drop_last());
        assert(head.drop_last().push(head.last().push(piece.last())) =~= seq![
            piece.drop_last().push(piece.last()),
        ]);
        assert(piece.drop_last().push(piece.last()) =~= piece);
    }
}

/// After a separator, a piece without separator is one more piece.
proof fn lemma_split_append(front: Seq<u8>, piece: Seq<u8>)
    requires
        forall|i: int| 0 <= i < piece.len() ==> piece[i] != SEPARATOR,
    ensures
        split_names(front + seq![SEPARATOR] + piece) == split_names(front).push(piece),
    decreases piece.len(),
{
    let whole = front + seq![SEPARATOR] + piece;
    lemma_split_nonempty(front);
    if piece.len() == 0 {
        assert(whole.drop_last() =~= front);
        assert(piece =~= Seq::<u8>::empty());
    } else {
        lemma_split_append(front, piece.drop_last());
        assert(whole.drop_last() =~= front + seq![SEPARATOR] + piece.drop_last());
        assert(whole.last() == piece.last());
        let head = split_names(whole.drop_last());
        assert(head.drop_last() =~= split_names(front));
        assert(piece.drop_last().push(piece.last()) =~= piece);
    }
}

/// Splitting the joined names of a valid roster gives the roster back.
proof fn lemma_split_join(names: Seq<Seq<u8>>)
    requires
        valid_roster(names),
        names.len() >= 1,
    ensures
        split_names(join_names(names)) == names,
    decreases names.len(),
{
    let last = names.last();
    assert(valid_username(last));
    assert forall|i: int| 0 <= i < last.len() implies last[i] != SEPARATOR by {
        assert(is_alnum(last[i]));
    }
    if names.len() == 1 {
        lemma_split_single(names[0]);
        assert(names =~= seq![names[0]]);
    } else {
        let front = names.drop_last();
        assert forall|i: int| 0 <= i < front.len() implies valid_username(#[trigger] front[i]) by {
            assert(front[i] == names[i]);
        }
        lemma_split_join(front);
        lemma_split_append(join_names(front), last);
        assert(front.push(last) =~= names);
    }
}

/// Joining the pieces of any bytes gives the bytes back.
proof fn lemma_join_split(body: Seq<u8>)
    ensures
        join_names(split_names(body)) == body,
    decreases body.len(),
{
    if body.len() == 0 {
        assert(body =~= Seq::<u8>::empty());
    } else {
        let front = body.drop_last();
        let head = split_names(front);
        lemma_join_split(front);
        lemma_split_nonempty(front);
        assert(front.push(body.last()) =~= body);
        if body.last() == SEPARATOR {
            let pieces = head.push(Seq::<u8>::empty());
            assert(pieces.drop_last() =~= head);
            assert(join_names(pieces) =~= front + seq![SEPARATOR]);
        } else {
            let grown = head.last().push(body.last());
            let pieces = head.drop_last().push(grown);
            if head.len() == 1 {
                assert(join_names(pieces) == grown);
                assert(join_names(head) == head[0]);
            } else {
                assert(pieces.drop_last() =~= head.drop_last());
                assert(join_names(pieces) =~= join_names(head.drop_last()) + seq![SEPARATOR]
                    + grown);
                assert(join_names(head) == join_names(head.drop_last()) + seq![SEPARATOR]
                    + head.last());
                assert(join_names(pieces) =~= join_names(head).push(body.last()));
            }
        }
    }
}

/// Reading is the inverse of writing: a frame is read as a list exactly
/// when it is the roster frame of that list of valid usernames.
pub proof fn lemma_roster_of_inverts(frame: Seq<u8>, names: Seq<Seq<u8>>)
    ensures
        roster_of(frame) == Some(names) <==> valid_roster(names) && roster_frame(names) == frame,
{
    let body = frame.subrange(PREFIX_LEN as int, frame.len() as int);
    if valid_roster(names) && roster_frame(names) == frame {
        assert(frame.subrange(0, PREFIX_LEN as int) =~= list_prefix());
        assert(body =~= join_names(names));
        if names.len() == 0 {
            assert(names =~= Seq::<Seq<u8>>::empty());
        } else {
            assert(valid_username(names.last()));
            lemma_split_join(names);
        }
    }
    if roster_of(frame) == Some(names) {
        assert(frame =~= list_prefix() + body);
        if body.len() == 0 {
            assert(body =~= join_names(names));
        } else {
            lemma_join_split(body);
        }
    }
}

/// A frame can be read exactly when it is a roster frame.
pub proof fn lemma_roster_of_some(frame: Seq<u8>)
    ensures
        roster_of(frame) is Some <==> is_roster_frame(frame),
{
    if roster_of(frame) is Some {
        lemma_roster_of_inverts(frame, roster_of(frame).unwrap());
    }
    if is_roster_frame(frame) {
        let names = choose|names: Seq<Seq<u8>>| valid_roster(names) && roster_frame(names) == frame;
        lemma_roster_of_inverts(frame, names);
    }
}

/// Reading the roster frame of a list of valid usernames gives the list.
pub proof fn lemma_roster_round_trip(names: Seq<Seq<u8>>)
    requires
        valid_roster(names),
    ensures
        roster_of(roster_frame(names)) == Some(names),
{
    lemma_roster_of_inverts(roster_frame(names), names);
}

/// Writes the roster frame that lists `names` in their order.
pub fn encode_roster(names: &Vec<Username>) -> (r: Vec<u8>)
    ensures
        r@ == roster_frame(name_views(names@)),
        valid_roster(name_views(names@)),
{
    let mut out: Vec<u8> = Vec::new();
    out.push(0x4c);
    out.push(0x49);
    out.push(0x53);
    out.push(0x54);
    out.push(0x7c);
    assert(out@ =~= list_prefix());
    let ghost views = name_views(names@);
    let mut i: usize = 0;
    while i < names.len()
        invariant
            i <= names.len(),
            views == name_views(names@),
            out@ == list_prefix() + join_names(views.take(i as int)),
            forall|k: int| 0 <= k < i ==> valid_username(#[trigger] views[k]),
        decreases names.len() - i,
    {
        if i > 0 {
            out.push(SEPARATOR);
        }
        let name = names[i].as_bytes();
        let ghost before = out@;
        let mut j: usize = 0;
        while j < name.len()
            invariant
                j <= name.len(),
                out@ == before + name@.subrange(0, j as int),
            decreases name.len() - j,
        {
            out.push(name[j]);
            assert(out@ =~= before + name@.subrange(0, j + 1));
            j += 1;
        }
        proof {
            assert(name@.subrange(0, name.len() as int) =~= name@);
            let next = views.take(i + 1);
            assert(next.last() == name@);
            assert(next.drop_last() =~= views.take(i as int));
            if i == 0 {
                assert(join_names(views.take(0)) =~= Seq::<u8>::empty());
                assert(out@ =~= list_prefix() + join_names(next));
            } else {
                assert(out@ =~= list_prefix() + join_names(next));
            }
        }
        i += 1;
    }
    assert(views.take(names.len() as int) =~= views);
    out
}

/// Cuts `body` at its separators.
fn split_at_separators(body: &Vec<u8>, start: usize) -> (r: Vec<Vec<u8>>)
    requires
        start <= body.len(),
    ensures
        r@.map_values(|piece: Vec<u8>| piece@) == split_names(
            body@.subrange(start as int, body.len() as int),
        ),
{
    let ghost tail = body@.subrange(start as int, body.len() as int);
    let mut pieces: Vec<Vec<u8>> = Vec::new();
    let mut cur: Vec<u8> = Vec::new();
    let mut i: usize = start;
    assert(pieces@.map_values(|piece: Vec<u8>| piece@).push(cur@) =~= split_names(tail.take(0)));
    while i < body.len()
        invariant
            start <= i <= body.len(),
            tail == body@.subrange(start as int, body.len() as int),
            pieces@.map_values(|piece: Vec<u8>| piece@).push(cur@) == split_names(
                tail.take(i - start),
            ),
        decreases body.len() - i,
    {
        let b: u8 = body[i];
        let ghost done = pieces@.map_values(|piece: Vec<u8>| piece@);
        let ghost old_cur = cur@;
        proof {
            let next = tail.take(i - start + 1);
            assert(next.drop_last() =~= tail.take(i - start));
            assert(next.last() == b);
            assert(done.push(old_cur).drop_last() =~= done);
        }
        if b == SEPARATOR {
            pieces.push(cur);
            cur = Vec::new();
            assert(pieces@.map_values(|piece: Vec<u8>| piece@) =~= done.push(old_cur));
        } else {
            cur.push(b);
        }
        i += 1;
    }
    assert(tail.take(body.len() - start) =~= tail);
    let ghost done = pieces@.map_values(|piece: Vec<u8>| piece@);
    pieces.push(cur);
    assert(pieces@.map_values(|piece: Vec<u8>| piece@) =~= done.push(cur@));
    pieces
}

/// Reads a roster frame: the usernames it lists, in order, or `None` where
/// `frame` is not the roster frame of any list of valid usernames.
#[verifier::loop_isolation(false)]
pub fn decode_roster(frame: &Vec<u8>) -> (r: Option<Vec<Username>>)
    ensures
        r is Some <==> is_roster_frame(frame@),
        r matches Some(names) ==> valid_roster(name_views(names@)) && roster_frame(
            name_views(names@),
        ) == frame@,
        match r {
            Some(names) => Some(name_views(names@)),
            None => None,
        } == roster_of(frame@),
{
    proof {
        lemma_roster_of_some(frame@);
    }
    if frame.len() < PREFIX_LEN {
        return None;
    }
    let head_ok = frame[0] == 0x4c && frame[1] == 0x49 && frame[2] == 0x53 && frame[3] == 0x54
        && frame[4] == 0x7c;
    proof {
        let head = frame@.subrange(0, PREFIX_LEN as int);
        if head_ok {
            assert(head =~= list_prefix());
        } else {
            assert(head[0] == frame@[0] && head[1] == frame@[1] && head[2] == frame@[2]
                && head[3] == frame@[3] && head[4] == frame@[4]);
        }
    }
    if !head_ok {
        return None;
    }
    let mut names: Vec<Username> = Vec::new();
    if frame.len() == PREFIX_LEN {
        proof {
            assert(name_views(names@) =~= Seq::<Seq<u8>>::empty());
            lemma_roster_of_inverts(frame@, name_views(names@));
        }
        return Some(names);
    }
    let pieces = split_at_separators(frame, PREFIX_LEN);
    let ghost all = pieces@.map_values(|piece: Vec<u8>| piece@);
    let mut i: usize = 0;
    while i < pieces.len()
        invariant
            i <= pieces.len(),
            all == pieces@.map_values(|piece: Vec<u8>| piece@),
            name_views(names@) == all.take(i as int),
            valid_roster(all.take(i as int)),
        decreases pieces.len() - i,
    {
        let piece = pieces[i].clone();
        assert(piece@ =~= all[i as int]);
        let ghost before = names@;
        match Username::new(piece) {
            Some(name) => {
                names.push(name);
                assert(names@ == before.push(name));
                assert forall|k: int| 0 <= k < i + 1 implies name_views(names@)[k] == all[k] by {
                    if k < i {
                        assert(name_views(before)[k] == all.take(i as int)[k]);
                    }
                }
                assert(name_views(names@) =~= all.take(i + 1));
                assert forall|k: int| 0 <= k < i + 1 implies valid_username(
                    #[trigger] all.take(i + 1)[k],
                ) by {
                    if k < i {
                        assert(all.take(i + 1)[k] == all.take(i as int)[k]);
                    }
                }
            },
            None => {
                assert(!valid_username(all[i as int]));
                return None;
            },
        }
        i += 1;
    }
    proof {
        assert(all.take(pieces.len() as int) =~= all);
        lemma_roster_of_inverts(frame@, all);
    }
    Some(names)
}

} // verus!
