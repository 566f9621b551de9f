//! The media store: naming and placement of uploaded files, the
//! store-relative form persisted in records, gallery normalization to a
//! fixed-size WebP, and the gallery listing model.
//!
//! The store never overwrites: every stored file gets a freshly generated
//! random name. The actual disk writes are the host's; the names, paths and
//! listing order are decided and verified here.

use vstd::prelude::*;
use crate::errors::CmsError;
use vstd::multiset::Multiset;
use crate::multipart::is_digit;

verus! {

/// The directory content-record images are stored under, as the host serves
/// it.
pub open spec fn upload_dir() -> Seq<char> {
    "../public/assets/image/upload/"@
}

/// The directory gallery (slider) images are stored under.
pub open spec fn slider_dir() -> Seq<char> {
    "../public/assets/slider/"@
}

/// The public-serving root prefix that is stripped from a disk path before
/// it is persisted in a record.
pub open spec fn public_prefix() -> Seq<char> {
    "../public"@
}

/// `p` with the public-serving root prefix removed, when it carries one;
/// any other path is unchanged.
pub open spec fn spec_store_relative(p: Seq<char>) -> Seq<char> {
    if p.len() >= public_prefix().len() && p.take(public_prefix().len() as int)
        == public_prefix() {
        p.skip(public_prefix().len() as int)
    } else {
        p
    }
}

/// The position just past the last `.` of `s`, if `s` holds one.
pub open spec fn spec_last_dot(s: Seq<char>) -> Option<int>
    decreases s.len(),
{
    if s.len() == 0 {
        None
    } else if s.last() == '.' {
        Some(s.len() - 1)
    } else {
        spec_last_dot(s.drop_last())
    }
}

/// The file extension inferred from a client file name: what follows the
/// last `.`, or empty when there is no `.` or when the only `.` leads the
/// name — a leading dot marks a hidden file's stem, not an extension.
pub open spec fn spec_extension(s: Seq<char>) -> Seq<char> {
    match spec_last_dot(s) {
        Some(i) => if i > 0 {
            s.skip(i + 1)
        } else {
            Seq::empty()
        },
        None => Seq::empty(),
    }
}

/// Relies on `uuid::Uuid::new_v4` and its hyphenated text form: 36
/// characters. The randomness of the 128-bit value is what makes a fresh
/// name collision-free in practice; the store never overwrites by design.
#[verifier::external_body]
pub(crate) fn fresh_media_name() -> (r: String)
    ensures
        r@.len() == 36,
{
    uuid::Uuid::new_v4().to_string()
}

/// Relies on `chrono::Local::now` and day-month-year formatting: a
/// two-digit day, a dash, a two-digit month, a dash, then the year, at
/// least four digits (signed for years before the era), so at least ten
/// characters in all.
#[verifier::external_body]
pub(crate) fn today_formatted() -> (r: String)
    ensures
        r@.len() >= 10,
        r@[2] == '-' && r@[5] == '-',
        is_digit(r@[0]) && is_digit(r@[1]) && is_digit(r@[3]) && is_digit(r@[4]),
{
    chrono::Local::now().format("%d-%m-%Y").to_string()
}

/// True when `image::load_from_memory` can decode these bytes; the result
/// depends on the bytes alone.
pub uninterp spec fn decodes_as_image(b: Seq<u8>) -> bool;

/// True when the decode of `b`, scaled to exactly `w` by `h`, is an image
/// the lossless WebP encoder takes back (it refuses some colour layouts and
/// out-of-range dimensions); a function of the three arguments alone.
pub uninterp spec fn webp_encodable(b: Seq<u8>, w: u32, h: u32) -> bool;

/// The WebP encoding of the decode of `b`, scaled to exactly `w` by `h`
/// with the Lanczos3 filter; a function of the three arguments alone within
/// one running process. The Lanczos kernel evaluates floating-point
/// transcendentals whose rounding the platform may vary, so the name is
/// read per execution: no contract compares encodings across machines or
/// library versions.
pub uninterp spec fn lanczos_webp_of(b: Seq<u8>, w: u32, h: u32) -> Seq<u8>;

/// Relies on `image::load_from_memory`, `image::DynamicImage::resize_exact`
/// with the Lanczos3 filter, and `image::DynamicImage::write_to` with the
/// WebP format: each is deterministic in its input within one running
/// process (see [`lanczos_webp_of`] on the kernel's floating point), so the
/// pipeline's success and output are functions of the bytes and the target
/// size, and
/// within the bounded target area every failure comes back as an error,
/// never a panic. The area bound is a machine limit: the resampler
/// allocates an intermediate buffer of source width by target height, and
/// an unbounded target would let that buffer's length check overflow and
/// panic. The three calls stand in one wrapper because the image value
/// between them is opaque to the verifier, while the named results speak
/// over the input bytes.
#[verifier::external_body]
fn resize_encode_webp(bytes: &Vec<u8>, width: u32, height: u32) -> (r: Option<Vec<u8>>)
    requires
        width as int * height as int <= 0x2000_0000,
    ensures
        (r is Some) == (decodes_as_image(bytes@) && webp_encodable(bytes@, width, height)),
        r matches Some(o) ==> o@ == lanczos_webp_of(bytes@, width, height),
{
    let img = match image::load_from_memory(bytes.as_slice()) {
        Ok(img) => img,
        Err(_) => return None,
    };
    let resized = img.resize_exact(width, height, image::imageops::FilterType::Lanczos3);
    let mut buf = std::io::Cursor::new(Vec::new());
    match resized.write_to(&mut buf, image::ImageFormat::WebP) {
        Ok(()) => Some(buf.into_inner()),
        Err(_) => None,
    }
}

/// Normalizes an uploaded image for the gallery: decodes it, scales it to
/// exactly `width` by `height`, and re-encodes it as WebP. It succeeds on
/// exactly the bytes that decode as an image whose scaled form the WebP
/// encoder takes back, and then returns that re-encoding; anything else
/// fails with `UnsupportedImage`, never a panic. The bound on the target
/// area is a machine limit: past it, the resampler's own buffer arithmetic
/// can overflow.
pub fn resize_to_webp(bytes: &Vec<u8>, width: u32, height: u32) -> (r: Result<Vec<u8>, CmsError>)
    requires
        width as int * height as int <= 0x2000_0000,
    ensures
        r is Ok <==> decodes_as_image(bytes@) && webp_encodable(bytes@, width, height),
        r matches Ok(o) ==> o@ == lanczos_webp_of(bytes@, width, height),
        r matches Err(e) ==> e == CmsError::UnsupportedImage,
{
    match resize_encode_webp(bytes, width, height) {
        Some(out) => Ok(out),
        None => Err(CmsError::UnsupportedImage),
    }
}

/// The disk path a content image is written to: the upload directory, a
/// fresh stem and the inferred extension.
pub fn upload_disk_path(stem: &str, ext: &str) -> (r: String)
    ensures
        r@ == upload_dir() + stem@ + "."@ + ext@,
{
    let mut p = String::from_str("../public/assets/image/upload/");
    p.append(stem);
    p.append(".");
    p.append(ext);
    p
}

/// The disk path a gallery image is written to: the slider directory, a
/// fresh stem and the fixed WebP extension.
pub fn slider_disk_path(stem: &str) -> (r: String)
    ensures
        r@ == slider_dir() + stem@ + ".webp"@,
{
    let mut p = String::from_str("../public/assets/slider/");
    p.append(stem);
    p.append(".webp");
    p
}

/// The extension of a client file name: what follows its last `.`; a dot
/// that leads the name begins a hidden file's stem, not an extension.
pub fn extension_of(filename: &str) -> (r: String)
    ensures
        r@ == spec_extension(filename@),
{
    let n = filename.unicode_len();
    let mut i: usize = n;
    proof {
        assert(filename@.take(i as int) =~= filename@);
    }
    while i > 0
        invariant
            0 <= i <= n,
            n == filename@.len(),
            spec_last_dot(filename@) == spec_last_dot(filename@.take(i as int)),
        decreases i,
    {
        i = i - 1;
        let c = filename.get_char(i);
        proof {
            assert(filename@.take(i + 1).last() == filename@[i as int]);
            assert(filename@.take(i + 1).drop_last() =~= filename@.take(i as int));
        }
        if c == '.' {
            if i == 0 {
                return String::new();
            }
            let ext = filename.substring_char(i + 1, n);
            let r = ext.to_owned();
            proof {
                assert(r@ =~= filename@.skip(i + 1));
            }
            return r;
        }
    }
    proof {
        assert(filename@.take(0int) =~= Seq::<char>::empty());
        assert(spec_extension(filename@) =~= Seq::<char>::empty());
    }
    String::new()
}

/// A path made store-relative: the `../public` serving prefix is stripped
/// when present, so the result can be embedded in a record and in URLs. A
/// path without the prefix, such as one already store-relative, is
/// unchanged.
pub fn store_relative_path(path: &str) -> (r: String)
    ensures
        r@ == spec_store_relative(path@),
{
    proof {
        reveal_strlit("../public");
    }
    let prefix = "../public";
    let n = path.unicode_len();
    if n < 9 {
        return path.to_owned();
    }
    let mut j: usize = 0;
    while j < 9
        invariant
            0 <= j <= 9,
            n == path@.len(),
            n >= 9,
            prefix@ == public_prefix(),
            forall|k: int| 0 <= k < j ==> path@[k] == public_prefix()[k],
        decreases 9 - j,
    {
        if path.get_char(j) != prefix.get_char(j) {
            proof {
                assert(path@.take(9int)[j as int] != public_prefix()[j as int]);
            }
            return path.to_owned();
        }
        j = j + 1;
    }
    proof {
        assert(path@.take(9int) =~= public_prefix());
    }
    let rel = path.substring_char(9, n);
    rel.to_owned()
}

/// One directory entry as the host reads it: a monotone modification-time
/// key (for instance nanoseconds since the epoch) and the file name.
pub struct ListingEntry {
    pub modified: u128,
    pub name: String,
}

/// The mathematical value of one listing entry.
pub struct ListingEntryView {
    pub modified: int,
    pub name: Seq<char>,
}

impl View for ListingEntry {
    type V = ListingEntryView;

    open spec fn view(&self) -> ListingEntryView {
        ListingEntryView { modified: self.modified as int, name: self.name@ }
    }
}

/// The entry views of a listing, in order.
pub open spec fn listing_views(s: Seq<ListingEntry>) -> Seq<ListingEntryView> {
    s.map_values(|e: ListingEntry| e@)
}

/// Holds of an entry modified at time `t`.
pub open spec fn modified_at(t: int) -> spec_fn(ListingEntryView) -> bool {
    |e: ListingEntryView| e.modified == t
}

/// The subsequence of `s` modified at time `t`, in order.
pub open spec fn spec_at_time(s: Seq<ListingEntryView>, t: int) -> Seq<ListingEntryView> {
    s.filter(modified_at(t))
}

/// An empty listing has an empty subsequence at every time.
proof fn lemma_at_time_empty(t: int)
    ensures
        spec_at_time(Seq::<ListingEntryView>::empty(), t) == Seq::<ListingEntryView>::empty(),
{
    reveal(Seq::filter);
}

/// Appending an entry extends its own time's subsequence and no other.
proof fn lemma_at_time_push(s: Seq<ListingEntryView>, e: ListingEntryView, t: int)
    ensures
        spec_at_time(s.push(e), t) == (if e.modified == t {
            spec_at_time(s, t).push(e)
        } else {
            spec_at_time(s, t)
        }),
{
    reveal(Seq::filter);
    assert(s.push(e).drop_last() =~= s);
    assert(s.push(e).last() == e);
}

/// A time no entry carries has an empty subsequence.
proof fn lemma_at_time_absent(s: Seq<ListingEntryView>, t: int)
    requires
        forall|k: int| 0 <= k < s.len() ==> (#[trigger] s[k].modified) != t,
    ensures
        spec_at_time(s, t) == Seq::<ListingEntryView>::empty(),
    decreases s.len(),
{
    reveal(Seq::filter);
    if s.len() == 0 {
        assert(s =~= Seq::<ListingEntryView>::empty());
    } else {
        assert forall|k: int| 0 <= k < s.drop_last().len() implies (
        #[trigger] s.drop_last()[k].modified) != t by {
            assert(s.drop_last()[k] == s[k]);
        }
        lemma_at_time_absent(s.drop_last(), t);
        assert(s[s.len() - 1].modified != t);
    }
}

/// Removing the first entry of its time drops that time's head; the
/// subsequences of every other time are untouched.
proof fn lemma_at_time_remove(s: Seq<ListingEntryView>, i: int, t: int)
    requires
        0 <= i < s.len(),
        forall|k: int| 0 <= k < i ==> (#[trigger] s[k].modified) != s[i].modified,
    ensures
        s[i].modified == t ==> spec_at_time(s, t) == seq![s[i]] + spec_at_time(s.remove(i), t),
        s[i].modified != t ==> spec_at_time(s, t) == spec_at_time(s.remove(i), t),
{
    let pred = modified_at(t);
    let a = s.take(i);
    let b = s.skip(i + 1);
    assert(s =~= a + (seq![s[i]] + b));
    assert(s.remove(i) =~= a + b);
    Seq::filter_distributes_over_add(a, seq![s[i]] + b, pred);
    Seq::filter_distributes_over_add(seq![s[i]], b, pred);
    Seq::filter_distributes_over_add(a, b, pred);
    reveal_with_fuel(Seq::filter, 3);
    assert(seq![s[i]].drop_last() =~= Seq::<ListingEntryView>::empty());
    assert(seq![s[i]].last() == s[i]);
    if s[i].modified == t {
        assert(seq![s[i]].filter(pred) =~= seq![s[i]]);
        assert forall|k: int| 0 <= k < a.len() implies (#[trigger] a[k].modified) != t by {
            assert(a[k] == s[k]);
        }
        lemma_at_time_absent(a, t);
        assert(spec_at_time(s, t) =~= seq![s[i]] + spec_at_time(s.remove(i), t));
    } else {
        assert(seq![s[i]].filter(pred) =~= Seq::<ListingEntryView>::empty());
        assert(spec_at_time(s, t) =~= spec_at_time(s.remove(i), t));
    }
}

/// Sorts a directory listing by modification time ascending, oldest first:
/// the order the gallery listing relies on. The result holds exactly the
/// given entries, and the sort is stable: at every time `t`, the entries
/// modified at `t` come out in the order they were read.
pub fn sort_listing(entries: Vec<ListingEntry>) -> (r: Vec<ListingEntry>)
    ensures
        r@.len() == entries@.len(),
        listing_views(r@).to_multiset() == listing_views(entries@).to_multiset(),
        forall|i: int, j: int|
            #![trigger r@[i].modified, r@[j].modified]
            0 <= i < j < r@.len() ==> r@[i].modified <= r@[j].modified,
        forall|t: int| #[trigger] spec_at_time(listing_views(r@), t) == spec_at_time(
            listing_views(entries@),
            t,
        ),
{
    let ghost all = listing_views(entries@);
    let mut rest = entries;
    let mut out: Vec<ListingEntry> = Vec::new();
    proof {
        assert(listing_views(out@) =~= Seq::<ListingEntryView>::empty());
        listing_views(out@).to_multiset_ensures();
        assert(listing_views(out@).to_multiset() =~= Multiset::<ListingEntryView>::empty()) by {
            assert forall|x: ListingEntryView|
                listing_views(out@).to_multiset().count(x) == 0 by {
                if listing_views(out@).to_multiset().count(x) > 0 {
                    assert(listing_views(out@).contains(x));
                }
            }
        }
        assert forall|t: int|
            #[trigger] spec_at_time(listing_views(out@), t) + spec_at_time(
                listing_views(rest@),
                t,
            ) == spec_at_time(all, t) by {
            lemma_at_time_empty(t);
            assert(spec_at_time(listing_views(out@), t) + spec_at_time(all, t) =~= spec_at_time(
                all,
                t,
            ));
        }
    }
    while rest.len() > 0
        invariant
            out@.len() + rest@.len() == all.len(),
            listing_views(out@).to_multiset().add(listing_views(rest@).to_multiset())
                == all.to_multiset(),
            forall|i: int, j: int|
                #![trigger out@[i].modified, out@[j].modified]
                0 <= i < j < out@.len() ==> out@[i].modified <= out@[j].modified,
            forall|a: int, b: int|
                #![trigger out@[a].modified, rest@[b].modified]
                0 <= a < out@.len() && 0 <= b < rest@.len() ==> out@[a].modified
                    <= rest@[b].modified,
            forall|t: int|
                #[trigger] spec_at_time(listing_views(out@), t) + spec_at_time(
                    listing_views(rest@),
                    t,
                ) == spec_at_time(all, t),
        decreases rest@.len(),
    {
        let m = rest.len();
        let mut mi: usize = 0;
        let mut k: usize = 1;
        while k < m
            invariant
                0 <= mi < k <= m,
                m == rest@.len(),
                forall|j: int|
                    0 <= j < k ==> rest@[mi as int].modified <= (#[trigger] rest@[j].modified),
                forall|j: int|
                    0 <= j < mi ==> rest@[mi as int].modified < (#[trigger] rest@[j].modified),
            decreases m - k,
        {
            if rest[k].modified < rest[mi].modified {
                mi = k;
            }
            k = k + 1;
        }
        let ghost old_out = out@;
        let ghost old_rest = rest@;
        let e = rest.remove(mi);
        out.push(e);
        proof {
            let vout_old = listing_views(old_out);
            let vrest_old = listing_views(old_rest);
            let vout = listing_views(out@);
            let vrest = listing_views(rest@);
            assert forall|k2: int| 0 <= k2 < vout.len() implies vout[k2] == vout_old.push(
                old_rest[mi as int]@,
            )[k2] by {
                assert(vout[k2] == out@[k2]@);
                if k2 < old_out.len() {
                    assert(out@[k2] == old_out[k2]);
                } else {
                    assert(out@[k2] == old_rest[mi as int]);
                }
            }
            assert(vout =~= vout_old.push(old_rest[mi as int]@));
            assert forall|k2: int| 0 <= k2 < vrest.len() implies vrest[k2] == vrest_old.remove(
                mi as int,
            )[k2] by {
                assert(vrest[k2] == rest@[k2]@);
                if k2 < mi as int {
                    assert(rest@[k2] == old_rest[k2]);
                } else {
                    assert(rest@[k2] == old_rest[k2 + 1]);
                }
            }
            assert(vrest =~= vrest_old.remove(mi as int));
            vout_old.to_multiset_ensures();
            vrest_old.to_multiset_ensures();
            let ev = old_rest[mi as int]@;
            assert(vrest_old[mi as int] == ev);
            assert(vout.to_multiset() =~= vout_old.to_multiset().insert(ev));
            assert(vrest.to_multiset() =~= vrest_old.to_multiset().remove(ev));
            assert(vrest_old.contains(vrest_old[mi as int]));
            assert(vrest_old.to_multiset().count(ev) > 0);
            assert(vout.to_multiset().add(vrest.to_multiset()) =~= vout_old.to_multiset().add(
                vrest_old.to_multiset(),
            ));
            // the extracted entry is minimal over what was left, so the
            // sorted prefix and the cross bound both carry over
            assert forall|a: int, b: int|
                #![trigger out@[a].modified, rest@[b].modified]
                0 <= a < out@.len() && 0 <= b < rest@.len() implies out@[a].modified
                <= rest@[b].modified by {
                let rb = if b < mi as int {
                    b
                } else {
                    b + 1
                };
                assert(rest@[b] == old_rest[rb]);
                if a < old_out.len() {
                    assert(out@[a] == old_out[a]);
                    assert(old_out[a].modified <= old_rest[rb].modified);
                } else {
                    assert(out@[a] == old_rest[mi as int]);
                    assert(old_rest[mi as int].modified <= old_rest[rb].modified);
                }
            }
            assert forall|i: int, j: int|
                #![trigger out@[i].modified, out@[j].modified]
                0 <= i < j < out@.len() implies out@[i].modified <= out@[j].modified by {
                assert(out@[i] == old_out[i]);
                if j < old_out.len() {
                    assert(out@[j] == old_out[j]);
                } else {
                    assert(out@[j] == old_rest[mi as int]);
                    assert(old_out[i].modified <= old_rest[mi as int].modified);
                }
            }
            // stability: the extracted entry is the first of its time, so
            // each time's subsequence just moves its head from rest to out
            assert forall|t: int|
                #[trigger] spec_at_time(vout, t) + spec_at_time(vrest, t) == spec_at_time(
                    all,
                    t,
                ) by {
                assert(spec_at_time(vout_old, t) + spec_at_time(vrest_old, t) == spec_at_time(
                    all,
                    t,
                ));
                lemma_at_time_push(vout_old, ev, t);
                assert forall|k2: int| 0 <= k2 < mi as int implies (
                #[trigger] vrest_old[k2].modified) != vrest_old[mi as int].modified by {
                    assert(vrest_old[k2] == old_rest[k2]@);
                    assert(old_rest[mi as int].modified < old_rest[k2].modified);
                }
                lemma_at_time_remove(vrest_old, mi as int, t);
                if ev.modified == t {
                    assert(spec_at_time(vout, t) + spec_at_time(vrest, t) =~= spec_at_time(
                        vout_old,
                        t,
                    ) + spec_at_time(vrest_old, t));
                } else {
                    assert(spec_at_time(vout, t) + spec_at_time(vrest, t) =~= spec_at_time(
                        vout_old,
                        t,
                    ) + spec_at_time(vrest_old, t));
                }
            }
        }
    }
    proof {
        let vrest = listing_views(rest@);
        vrest.to_multiset_ensures();
        assert(vrest.to_multiset() =~= Multiset::<ListingEntryView>::empty()) by {
            assert forall|x: ListingEntryView| vrest.to_multiset().count(x) == 0 by {
                if vrest.to_multiset().count(x) > 0 {
                    assert(vrest.contains(x));
                }
            }
        }
        assert(listing_views(out@).to_multiset() =~= all.to_multiset());
        assert forall|t: int| #[trigger] spec_at_time(listing_views(out@), t) == spec_at_time(
            all,
            t,
        ) by {
            lemma_at_time_absent(vrest, t);
            assert(spec_at_time(listing_views(out@), t) + spec_at_time(vrest, t) == spec_at_time(
                all,
                t,
            ));
            assert(spec_at_time(listing_views(out@), t) + Seq::<ListingEntryView>::empty()
                =~= spec_at_time(listing_views(out@), t));
        }
    }
    out
}

/// The file names of the listing's entries, in order.
pub fn listing_names(entries: &Vec<ListingEntry>) -> (r: Vec<String>)
    ensures
        r@.len() == entries@.len(),
        forall|k: int| 0 <= k < r@.len() ==> (#[trigger] r@[k]@) == entries@[k].name@,
{
    let n = entries.len();
    let mut out: Vec<String> = Vec::new();
    let mut i: usize = 0;
    while i < n
        invariant
            0 <= i <= n,
            n == entries@.len(),
            out@.len() == i,
            forall|k: int| 0 <= k < i ==> (#[trigger] out@[k]@) == entries@[k].name@,
        decreases n - i,
    {
        let ghost prev = out@;
        let name = entries[i].name.clone();
        out.push(name);
        proof {
            assert forall|k: int| 0 <= k < i + 1 implies (#[trigger] out@[k]@)
                == entries@[k].name@ by {
                if k < i as int {
                    assert(out@[k] == prev[k]);
                }
            }
        }
        i = i + 1;
    }
    out
}

/// `files` with the first entry equal to `name` removed; without a match,
/// unchanged.
pub open spec fn spec_remove_name(files: Seq<Seq<char>>, name: Seq<char>) -> Seq<Seq<char>>
    decreases files.len(),
{
    if files.len() == 0 {
        Seq::empty()
    } else if files[0] == name {
        files.drop_first()
    } else {
        seq![files[0]] + spec_remove_name(files.drop_first(), name)
    }
}

/// Removing a name no entry carries leaves the listing unchanged.
proof fn lemma_remove_name_absent(files: Seq<Seq<char>>, name: Seq<char>)
    requires
        forall|k: int| 0 <= k < files.len() ==> (#[trigger] files[k]) != name,
    ensures
        spec_remove_name(files, name) == files,
    decreases files.len(),
{
    if files.len() > 0 {
        assert forall|k: int| 0 <= k < files.drop_first().len() implies (
        #[trigger] files.drop_first()[k]) != name by {
            assert(files.drop_first()[k] == files[k + 1]);
        }
        lemma_remove_name_absent(files.drop_first(), name);
        assert(spec_remove_name(files, name) =~= files);
    }
}

/// When the first entry equal to `name` sits at `i`, removal removes that
/// entry alone.
proof fn lemma_remove_name_at(files: Seq<Seq<char>>, name: Seq<char>, i: int)
    requires
        0 <= i < files.len(),
        files[i] == name,
        forall|k: int| 0 <= k < i ==> (#[trigger] files[k]) != name,
    ensures
        spec_remove_name(files, name) == files.remove(i),
    decreases files.len(),
{
    if i == 0 {
        assert(spec_remove_name(files, name) =~= files.remove(0));
    } else {
        assert(files.drop_first()[i - 1] == files[i]);
        assert forall|k: int| 0 <= k < i - 1 implies (#[trigger] files.drop_first()[k])
            != name by {
            assert(files.drop_first()[k] == files[k + 1]);
        }
        lemma_remove_name_at(files.drop_first(), name, i - 1);
        assert(spec_remove_name(files, name) =~= files.remove(i));
    }
}

/// The gallery directory as the store lists it: file names ordered by
/// last-modified time, oldest first. The host keeps this model in step with
/// the real directory; membership and order are decided here.
pub struct MediaStore {
    files: Vec<String>,
}

impl View for MediaStore {
    type V = Seq<Seq<char>>;

    closed spec fn view(&self) -> Seq<Seq<char>> {
        self.files.deep_view()
    }
}

impl MediaStore {
    /// An empty listing.
    pub fn new() -> (s: MediaStore)
        ensures
            s@.len() == 0,
    {
        let s = MediaStore { files: Vec::new() };
        proof {
            assert(s@ =~= Seq::<Seq<char>>::empty());
        }
        s
    }

    /// A store whose listing is `files`, as the host read it from the
    /// directory, ordered by last-modified time ascending.
    pub fn from_listing(files: Vec<String>) -> (s: MediaStore)
        ensures
            s@ == files.deep_view(),
    {
        MediaStore { files }
    }

    /// Law: a file stored now appears in the listing, ordered after every
    /// file already present, because a fresh file's modification time is
    /// the newest.
    pub fn record_upload(&mut self, name: String)
        ensures
            final(self)@ == old(self)@.push(name@),
    {
        let ghost prev = self.files@;
        self.files.push(name);
        proof {
            assert forall|k: int| 0 <= k < self.files@.len() implies self@[k] == old(
                self,
            )@.push(name@)[k] by {
                assert(self@[k] == self.files@[k]@);
                if k < prev.len() {
                    assert(self.files@[k] == prev[k]);
                }
            }
            assert(final(self)@ =~= old(self)@.push(name@));
        }
    }

    /// Removes one file name from the listing. Removing a name that is not
    /// listed reports `false` and changes nothing: the caller surfaces that
    /// as a reported, non-fatal error.
    pub fn remove(&mut self, name: &String) -> (found: bool)
        ensures
            found == old(self)@.contains(name@),
            final(self)@ == spec_remove_name(old(self)@, name@),
    {
        let n = self.files.len();
        let mut i: usize = 0;
        while i < n
            invariant
                0 <= i <= n,
                n == self@.len(),
                self == old(self),
                forall|k: int| 0 <= k < i ==> (#[trigger] self@[k]) != name@,
            decreases n - i,
        {
            if self.files[i] == *name {
                proof {
                    assert(old(self)@[i as int] == self.files@[i as int]@);
                    lemma_remove_name_at(old(self)@, name@, i as int);
                }
                self.files.remove(i);
                proof {
                    let removed = old(self)@.remove(i as int);
                    assert forall|k: int| 0 <= k < removed.len() implies self@[k]
                        == removed[k] by {
                        assert(self@[k] == self.files@[k]@);
                        if k < i as int {
                            assert(self.files@[k] == old(self).files@[k]);
                        } else {
                            assert(self.files@[k] == old(self).files@[k + 1]);
                        }
                    }
                    assert(self@ =~= removed);
                }
                return true;
            }
            proof {
                assert(self@[i as int] == self.files@[i as int]@);
            }
            i = i + 1;
        }
        proof {
            lemma_remove_name_absent(self@, name@);
        }
        false
    }

    /// The listing: every file name, oldest first.
    pub fn list(&self) -> (r: Vec<String>)
        ensures
            r.deep_view() == self@,
    {
        let n = self.files.len();
        let mut out: Vec<String> = Vec::new();
        let mut i: usize = 0;
        while i < n
            invariant
                0 <= i <= n,
                n == self@.len(),
                out@.len() == i,
                forall|k: int| 0 <= k < i ==> (#[trigger] out@[k]@) == self@[k],
            decreases n - i,
        {
            let ghost prev = out@;
            let entry = self.files[i].clone();
            out.push(entry);
            proof {
                assert forall|k: int| 0 <= k < i + 1 implies (#[trigger] out@[k]@) == self@[k] by {
                    assert(self@[k] == self.files@[k]@);
                    if k < i as int {
                        assert(out@[k] == prev[k]);
                    } else {
                        assert(out@[k] == entry);
                        assert(entry@ == self.files@[i as int]@);
                    }
                }
            }
            i = i + 1;
        }
        proof {
            assert forall|k: int| 0 <= k < n implies out.deep_view()[k] == self@[k] by {
                assert(out.deep_view()[k] == out@[k]@);
            }
            assert(out.deep_view() =~= self@);
        }
        out
    }

    /// How many files the listing holds.
    pub fn count(&self) -> (n: usize)
        ensures
            n == self@.len(),
    {
        self.files.len()
    }
}

} // verus!
