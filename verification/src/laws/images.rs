//! Images in a request.

use vstd::prelude::*;

use crate::image_input::{
    attached, base64_len, base64_text, block_sizes, image_fault, image_sizes, media_type_of,
    within_limits,
};
use crate::model::{BlockView, Message};
use crate::text::byte_len;

verus! {

/// Whether `bytes` start with `head`.
pub open spec fn begins(bytes: Seq<u8>, head: Seq<u8>) -> bool {
    head.len() <= bytes.len() && forall|i: int| 0 <= i < head.len() ==> bytes[i] == #[trigger] head[i]
}

/// An image is known by how its file begins: JPEG, PNG, GIF and WebP, and nothing
/// else.
pub proof fn law_images_are_known_by_their_signature(bytes: Seq<u8>)
    ensures
        ({
            let jpeg = begins(bytes, seq![255u8, 216, 255]);
            let png = begins(bytes, seq![137u8, 80, 78, 71, 13, 10, 26, 10]);
            let gif = begins(bytes, seq![71u8, 73, 70, 56, 55, 97]) || begins(
                bytes,
                seq![71u8, 73, 70, 56, 57, 97],
            );
            let webp = begins(bytes, seq![82u8, 73, 70, 70]) && bytes.len() >= 12 && begins(
                bytes.skip(8),
                seq![87u8, 69, 66, 80],
            );
            &&& jpeg <==> media_type_of(bytes) == Some("image/jpeg"@)
            &&& png <==> media_type_of(bytes) == Some("image/png"@)
            &&& gif <==> media_type_of(bytes) == Some("image/gif"@)
            &&& webp <==> media_type_of(bytes) == Some("image/webp"@)
            &&& media_type_of(bytes) is None <==> !jpeg && !png && !gif && !webp
        }),
{
    reveal_strlit("image/jpeg");
    reveal_strlit("image/png");
    reveal_strlit("image/gif");
    reveal_strlit("image/webp");
    assert("image/jpeg"@.len() == 10 && "image/png"@.len() == 9 && "image/gif"@.len() == 9
        && "image/webp"@.len() == 10);
    assert("image/jpeg"@[6] != "image/webp"@[6] && "image/png"@[6] != "image/gif"@[6]);
    lemma_begins(bytes, seq![255u8, 216, 255]);
    lemma_begins(bytes, seq![137u8, 80, 78, 71, 13, 10, 26, 10]);
    lemma_begins(bytes, seq![71u8, 73, 70, 56, 55, 97]);
    lemma_begins(bytes, seq![71u8, 73, 70, 56, 57, 97]);
    lemma_begins(bytes, seq![82u8, 73, 70, 70]);
    let jpeg = seq![255u8, 216, 255];
    let png = seq![137u8, 80, 78, 71, 13, 10, 26, 10];
    let gif87 = seq![71u8, 73, 70, 56, 55, 97];
    let gif89 = seq![71u8, 73, 70, 56, 57, 97];
    let riff = seq![82u8, 73, 70, 70];
    assert(jpeg[0] != png[0] && jpeg[0] != gif87[0] && jpeg[0] != gif89[0] && jpeg[0] != riff[0]);
    assert(png[0] != gif87[0] && png[0] != gif89[0] && png[0] != riff[0]);
    assert(gif87[0] != riff[0] && gif89[0] != riff[0]);
    if bytes.len() >= 12 {
        lemma_begins(bytes.skip(8), seq![87u8, 69, 66, 80]);
        assert(bytes.skip(8).subrange(0, 4) =~= bytes.subrange(8, 12));
    }
}

proof fn lemma_begins(bytes: Seq<u8>, head: Seq<u8>)
    ensures
        begins(bytes, head) <==> head.len() <= bytes.len() && bytes.subrange(0, head.len() as int)
            == head,
{
    if head.len() <= bytes.len() {
        let start = bytes.subrange(0, head.len() as int);
        if begins(bytes, head) {
            assert(start =~= head);
        }
        if start == head {
            assert forall|i: int| 0 <= i < head.len() implies bytes[i] == #[trigger] head[i] by {
                assert(start[i] == bytes[i]);
            }
        }
    }
}

/// An image file is attached whole, as the base64 form of its bytes and under its
/// media type, exactly where it is an image of at most 7.5 MB and all images together
/// stay within 32 MB.
pub proof fn law_images_are_attached_whole(path: Seq<char>, bytes: Seq<u8>, total: nat)
    ensures
        match attached(path, bytes, total) {
            Ok(block) => {
                &&& media_type_of(bytes) is Some
                &&& block == (BlockView::Image {
                    media_type: media_type_of(bytes).unwrap(),
                    data: base64_text(bytes),
                })
                &&& bytes.len() <= 7_500_000
                &&& total + base64_len(bytes.len()) <= 32_000_000
            },
            Err(_) => bytes.len() > 7_500_000 || media_type_of(bytes) is None || total + base64_len(
                bytes.len(),
            ) > 32_000_000,
        },
        3 * base64_len(bytes.len()) >= 4 * bytes.len(),
        3 * base64_len(bytes.len()) < 4 * bytes.len() + 12,
        base64_len(bytes.len()) % 4 == 0,
{
}

/// The sum of sizes.
pub open spec fn sum_of_sizes(sizes: Seq<nat>) -> nat
    decreases sizes.len(),
{
    if sizes.len() == 0 {
        0
    } else {
        sum_of_sizes(sizes.drop_last()) + sizes.last()
    }
}

proof fn lemma_within(sizes: Seq<nat>, n: nat)
    requires
        n <= sizes.len(),
    ensures
        match within_limits(sizes, n) {
            Ok(total) => {
                &&& total == sum_of_sizes(sizes.take(n as int))
                &&& total <= 32_000_000
                &&& forall|i: int| 0 <= i < n ==> #[trigger] sizes[i] <= 10_000_000
            },
            Err(_) => {
                ||| exists|i: int| 0 <= i < n && #[trigger] sizes[i] > 10_000_000
                ||| sum_of_sizes(sizes.take(n as int)) > 32_000_000
            },
        },
    decreases n,
{
    if n > 0 {
        lemma_within(sizes, (n - 1) as nat);
        assert(sizes.take(n as int).drop_last() =~= sizes.take(n - 1));
        assert(sizes.take(n as int).last() == sizes[n - 1]);
        if within_limits(sizes, (n - 1) as nat) is Err && exists|i: int|
            0 <= i < n - 1 && #[trigger] sizes[i] > 10_000_000 {
            let i = choose|i: int| 0 <= i < n - 1 && #[trigger] sizes[i] > 10_000_000;
            assert(sizes[i] > 10_000_000);
        }
    }
}

/// The images of a turn, in order: the sizes of their data.
pub open spec fn are_image_sizes(
    blocks: Seq<BlockView>,
    sizes: Seq<nat>,
    places: Seq<int>,
) -> bool {
    &&& sizes.len() == places.len()
    &&& forall|k: int|
        0 <= k < places.len() ==> 0 <= #[trigger] places[k] < blocks.len() && (blocks[places[k]]
            matches BlockView::Image { data, .. } && byte_len(data) == sizes[k])
    &&& forall|k: int, l: int| 0 <= k < l < places.len() ==> places[k] < places[l]
    &&& forall|i: int|
        0 <= i < blocks.len() && #[trigger] blocks[i] is Image ==> places.contains(i)
}

proof fn lemma_block_sizes(blocks: Seq<BlockView>) -> (places: Seq<int>)
    ensures
        are_image_sizes(blocks, block_sizes(blocks), places),
    decreases blocks.len(),
{
    if blocks.len() == 0 {
        Seq::empty()
    } else {
        let front = blocks.drop_last();
        let before = lemma_block_sizes(front);
        let sizes = block_sizes(blocks);
        let places = if blocks.last() is Image {
            before.push(blocks.len() - 1)
        } else {
            before
        };
        assert forall|k: int| 0 <= k < places.len() implies 0 <= #[trigger] places[k]
            < blocks.len() && (blocks[places[k]] matches BlockView::Image { data, .. } && byte_len(
            data,
        ) == sizes[k]) by {
            if k < before.len() {
                assert(places[k] == before[k]);
                assert(front[before[k]] == blocks[before[k]]);
            }
        }
        assert forall|i: int|
            0 <= i < blocks.len() && #[trigger] blocks[i] is Image implies places.contains(i) by {
            if i < front.len() {
                assert(front[i] == blocks[i]);
                assert(before.contains(i));
                let k = choose|k: int| 0 <= k < before.len() && before[k] == i;
                assert(places[k] == i);
            } else {
                assert(places[before.len() as int] == i);
            }
        }
        places
    }
}

/// The sizes of the images of a conversation are those of its turns, in order, and a
/// turn has one for each of its images.
pub proof fn law_every_image_is_measured(messages: Seq<Message>, last: Message)
    ensures
        image_sizes(Seq::<Message>::empty(), 0) == Seq::<nat>::empty(),
        image_sizes(messages.push(last), messages.len() + 1) == image_sizes(
            messages,
            messages.len(),
        ) + block_sizes(last@.content),
        exists|places: Seq<int>| #[trigger]
            are_image_sizes(last@.content, block_sizes(last@.content), places),
{
    let more = messages.push(last);
    lemma_same_sizes(messages, last, messages.len());
    let places = lemma_block_sizes(last@.content);
}

proof fn lemma_same_sizes(messages: Seq<Message>, last: Message, n: nat)
    requires
        n <= messages.len(),
    ensures
        image_sizes(messages.push(last), n) == image_sizes(messages, n),
    decreases n,
{
    if n > 0 {
        lemma_same_sizes(messages, last, (n - 1) as nat);
        assert(messages.push(last)[n - 1] == messages[n - 1]);
    }
}

/// A request goes out exactly where each of its images has at most 10 MB of data and
/// all of them together at most 32 MB.
pub proof fn law_images_stay_within_their_limits(messages: Seq<Message>)
    ensures
        ({
            let sizes = image_sizes(messages, messages.len());
            image_fault(messages) is None <==> sum_of_sizes(sizes) <= 32_000_000 && forall|i: int|
                0 <= i < sizes.len() ==> #[trigger] sizes[i] <= 10_000_000
        }),
{
    let sizes = image_sizes(messages, messages.len());
    lemma_within(sizes, sizes.len());
    assert(sizes.take(sizes.len() as int) =~= sizes);
}

} // verus!
