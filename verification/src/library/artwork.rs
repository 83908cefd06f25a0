//! Embedded cover art: which picture of a file is shown.

use vstd::prelude::*;
use vstd::string::*;

verus! {

/// Cap for one embedded picture.
pub const MAX_ARTWORK_BYTES: usize = 524_288;

/// One embedded picture, ready for an image-capable consumer.
#[derive(Debug, Clone)]
pub struct Artwork {
    /// MIME type as stored (`image/jpeg`, ...).
    pub mime: String,
    /// Raw encoded bytes.
    pub data: Vec<u8>,
}

/// A picture as the tags of a file hold it.
#[derive(Debug)]
pub struct Picture {
    /// Tagged as the front cover.
    pub front_cover: bool,
    pub mime: Option<String>,
    pub data: Vec<u8>,
}

/// A picture that can be shown: not empty and not past the cap.
pub open spec fn usable(p: Picture) -> bool {
    0 < p.data@.len() <= MAX_ARTWORK_BYTES
}

/// A picture that can be shown and is the front cover.
pub open spec fn usable_cover(p: Picture) -> bool {
    usable(p) && p.front_cover
}

/// The index of the first picture that passes a test, and the number of
/// pictures where none does.
pub open spec fn first_where(pics: Seq<Picture>, test: spec_fn(Picture) -> bool) -> int
    decreases pics.len(),
{
    if pics.len() == 0 {
        0
    } else {
        let n = first_where(pics.drop_last(), test);
        if n < pics.len() - 1 {
            n
        } else if test(pics.last()) {
            pics.len() - 1
        } else {
            pics.len() as int
        }
    }
}

/// The index of the picture that is shown: the first usable front cover, else
/// the first usable picture, else none.
pub open spec fn picked(pics: Seq<Picture>) -> int {
    let cover = first_where(pics, |p: Picture| usable_cover(p));
    if cover < pics.len() {
        cover
    } else {
        first_where(pics, |p: Picture| usable(p))
    }
}

/// Artwork shows a picture; an unnamed type counts as JPEG.
pub open spec fn shows(a: Artwork, p: Picture) -> bool {
    a.data@ == p.data@ && a.mime@ == (match p.mime {
        Some(m) => m@,
        None => "image/jpeg"@,
    })
}

proof fn lemma_first_where(pics: Seq<Picture>, test: spec_fn(Picture) -> bool, i: int)
    requires
        0 <= i <= pics.len(),
    ensures
        0 <= first_where(pics, test) <= pics.len(),
        first_where(pics.subrange(0, i), test) < i ==> first_where(pics, test) == first_where(
            pics.subrange(0, i),
            test,
        ),
    decreases pics.len() - i,
{
    lemma_first_bound(pics, test);
    if i < pics.len() {
        lemma_first_where(pics, test, i + 1);
        assert(pics.subrange(0, i + 1).drop_last() =~= pics.subrange(0, i));
    } else {
        assert(pics.subrange(0, i) =~= pics);
    }
}

proof fn lemma_first_bound(pics: Seq<Picture>, test: spec_fn(Picture) -> bool)
    ensures
        0 <= first_where(pics, test) <= pics.len(),
    decreases pics.len(),
{
    if pics.len() > 0 {
        lemma_first_bound(pics.drop_last(), test);
    }
}

/// The picture that is shown can be shown, no usable front cover is passed
/// over for another picture, and nothing is shown only where nothing can be.
pub proof fn covers_come_first(pics: Seq<Picture>)
    ensures
        0 <= picked(pics) <= pics.len(),
        picked(pics) < pics.len() ==> usable(pics[picked(pics)]),
        forall|i: int|
            0 <= i < pics.len() && usable_cover(#[trigger] pics[i]) ==> picked(pics) <= i
                && usable_cover(pics[picked(pics)]),
        forall|i: int| 0 <= i < pics.len() && usable(#[trigger] pics[i]) ==> picked(pics) < pics.len(),
{
    lemma_first_is_first(pics, |p: Picture| usable_cover(p));
    lemma_first_is_first(pics, |p: Picture| usable(p));
}

proof fn lemma_first_is_first(pics: Seq<Picture>, test: spec_fn(Picture) -> bool)
    ensures
        0 <= first_where(pics, test) <= pics.len(),
        first_where(pics, test) < pics.len() ==> test(pics[first_where(pics, test)]),
        forall|i: int| 0 <= i < pics.len() && test(#[trigger] pics[i]) ==> first_where(pics, test) <= i,
    decreases pics.len(),
{
    if pics.len() > 0 {
        let front = pics.drop_last();
        lemma_first_is_first(front, test);
        assert forall|i: int| 0 <= i < pics.len() && test(#[trigger] pics[i]) implies first_where(
            pics,
            test,
        ) <= i by {
            if i < front.len() {
                assert(front[i] == pics[i]);
            }
        }
    }
}

/// The artwork that shows a picture.
fn artwork_of(p: &Picture) -> (a: Artwork)
    ensures
        shows(a, *p),
{
    let mut data: Vec<u8> = Vec::new();
    data.extend_from_slice(p.data.as_slice());
    assert(data@ =~= p.data@);
    Artwork {
        mime: match &p.mime {
            Some(m) => m.clone(),
            None => String::from_str("image/jpeg"),
        },
        data,
    }
}

/// The picture that is shown, given all pictures of all tags in order: the
/// first usable front cover, else the first usable picture.
pub fn pick_artwork(pics: &Vec<Picture>) -> (r: Option<Artwork>)
    ensures
        match r {
            Some(a) => picked(pics@) < pics@.len() && shows(a, pics@[picked(pics@)]),
            None => picked(pics@) == pics@.len(),
        },
{
    let ghost cover = |p: Picture| usable_cover(p);
    let ghost any = |p: Picture| usable(p);
    let mut fallback: Option<usize> = None;
    let mut i: usize = 0;
    while i < pics.len()
        invariant
            i <= pics.len(),
            cover == (|p: Picture| usable_cover(p)),
            any == (|p: Picture| usable(p)),
            first_where(pics@.subrange(0, i as int), cover) == i,
            match fallback {
                Some(n) => n < i && first_where(pics@.subrange(0, i as int), any) == n,
                None => first_where(pics@.subrange(0, i as int), any) == i,
            },
        decreases pics.len() - i,
    {
        assert(pics@.subrange(0, i + 1).drop_last() =~= pics@.subrange(0, i as int));
        let p = &pics[i];
        if p.data.len() > 0 && p.data.len() <= MAX_ARTWORK_BYTES {
            if p.front_cover {
                proof {
                    lemma_first_where(pics@, cover, i + 1);
                }
                return Some(artwork_of(p));
            }
            if fallback.is_none() {
                fallback = Some(i);
            }
        }
        i = i + 1;
    }
    assert(pics@.subrange(0, i as int) =~= pics@);
    match fallback {
        Some(n) => Some(artwork_of(&pics[n])),
        None => None,
    }
}

/// A picture is used exactly where it holds something and no more than half a
/// mebibyte, front covers first, and each in the order in which they come.
pub proof fn pictures_are_used_in_order(pics: Seq<Picture>, i: int)
    requires
        0 <= i < pics.len(),
    ensures
        picked(pics) == i <==> 0 < pics[i].data@.len() <= 524_288 && (if pics[i].front_cover {
            forall|j: int|
                0 <= j < i ==> !((#[trigger] pics[j]).front_cover && 0 < pics[j].data@.len()
                    <= 524_288)
        } else {
            &&& forall|j: int|
                0 <= j < pics.len() ==> !((#[trigger] pics[j]).front_cover && 0 < pics[j].data@.len()
                    <= 524_288)
            &&& forall|j: int| 0 <= j < i ==> !(0 < (#[trigger] pics[j]).data@.len() <= 524_288)
        }),
{
    let cover = |p: Picture| usable_cover(p);
    let any = |p: Picture| usable(p);
    lemma_first_is_first(pics, cover);
    lemma_first_is_first(pics, any);
    let c = first_where(pics, cover);
    let a = first_where(pics, any);
    assert(cover(pics[i]) == usable_cover(pics[i]));
    assert(any(pics[i]) == usable(pics[i]));
    if picked(pics) == i {
        assert forall|j: int| 0 <= j < i implies !(pics[i].front_cover && (
        #[trigger] pics[j]).front_cover && 0 < pics[j].data@.len() <= 524_288) by {
            if pics[j].front_cover && 0 < pics[j].data@.len() <= 524_288 {
                assert(cover(pics[j]));
            }
        }
        if !pics[i].front_cover {
            assert(c == pics.len()) by {
                if c < pics.len() {
                    assert(cover(pics[c]));
                }
            }
            assert forall|j: int| 0 <= j < pics.len() implies !((#[trigger] pics[j]).front_cover && 0
                < pics[j].data@.len() <= 524_288) by {
                if pics[j].front_cover && 0 < pics[j].data@.len() <= 524_288 {
                    assert(cover(pics[j]));
                }
            }
            assert forall|j: int| 0 <= j < i implies !(0 < (#[trigger] pics[j]).data@.len()
                <= 524_288) by {
                if 0 < pics[j].data@.len() <= 524_288 {
                    assert(any(pics[j]));
                }
            }
        } else if c == pics.len() {
            assert(cover(pics[i]));
        }
    } else {
        if c < pics.len() {
            assert(cover(pics[c]));
        }
        if a < pics.len() {
            assert(any(pics[a]));
        }
    }
}

/// A picture is shown as it is stored; one without a type is taken for a JPEG.
pub proof fn pictures_are_shown_as_stored(a: Artwork, p: Picture)
    requires
        shows(a, p),
    ensures
        a.data@ == p.data@,
        p.mime is Some ==> a.mime@ == p.mime->0@,
        p.mime is None ==> a.mime@ == "image/jpeg"@,
{
}

} // verus!
