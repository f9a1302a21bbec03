//! Resource cache for raster images referenced by retained UI documents.
//!
//! Documents store only image keys. This cache owns decoded RGBA pixels at
//! the surface-host boundary, so a project can replace or unload icons
//! without modifying serialized layout data.

use vstd::prelude::*;

verus! {

/// Decoded RGBA8 pixels of one image and the revision at which they were
/// stored.
#[derive(Debug, Clone)]
pub struct UiSurfaceImageData {
    pub size: [u32; 2],
    pub pixels: Vec<u8>,
    pub revision: u64,
}

/// The abstract content of an image entry.
pub struct UiImageView {
    pub size: [u32; 2],
    pub pixels: Seq<u8>,
    pub revision: u64,
}

impl UiSurfaceImageData {
    pub open spec fn image_view(&self) -> UiImageView {
        UiImageView { size: self.size, pixels: self.pixels@, revision: self.revision }
    }
}

struct ImageEntry {
    key: String,
    data: UiSurfaceImageData,
}

/// Keyed store of RGBA images.
pub struct UiSurfaceImageStore {
    images: Vec<ImageEntry>,
    next_revision: u64,
}

/// `a.max(1)`.
pub open spec fn at_least_one(a: u32) -> u32 {
    if a == 0 {
        1
    } else {
        a
    }
}

/// Byte count an RGBA image of the given size must have.
pub open spec fn rgba_len(size: [u32; 2]) -> int {
    at_least_one(size[0]) * at_least_one(size[1]) * 4
}

/// Decimal digits of `n`, as `Display` writes an unsigned integer.
pub open spec fn decimal(n: nat) -> Seq<char>
    decreases n,
{
    if n < 10 {
        seq![digit_char(n)]
    } else {
        decimal(n / 10) + seq![digit_char(n % 10)]
    }
}

pub open spec fn digit_char(d: nat) -> char {
    if d == 0 {
        '0'
    } else if d == 1 {
        '1'
    } else if d == 2 {
        '2'
    } else if d == 3 {
        '3'
    } else if d == 4 {
        '4'
    } else if d == 5 {
        '5'
    } else if d == 6 {
        '6'
    } else if d == 7 {
        '7'
    } else if d == 8 {
        '8'
    } else {
        '9'
    }
}

/// The decimal digit `d` as a one-character text.
fn digit_str(d: u128) -> (text: &'static str)
    requires
        d < 10,
    ensures
        text@ == seq![digit_char(d as nat)],
{
    proof {
        reveal_strlit("0");
        reveal_strlit("1");
        reveal_strlit("2");
        reveal_strlit("3");
        reveal_strlit("4");
        reveal_strlit("5");
        reveal_strlit("6");
        reveal_strlit("7");
        reveal_strlit("8");
        reveal_strlit("9");
    }
    if d == 0 {
        "0"
    } else if d == 1 {
        "1"
    } else if d == 2 {
        "2"
    } else if d == 3 {
        "3"
    } else if d == 4 {
        "4"
    } else if d == 5 {
        "5"
    } else if d == 6 {
        "6"
    } else if d == 7 {
        "7"
    } else if d == 8 {
        "8"
    } else {
        "9"
    }
}

/// Formats an unsigned integer in decimal, as `Display` does.
fn decimal_string(value: u128) -> (text: String)
    ensures
        text@ == decimal(value as nat),
{
    let mut n: u128 = value;
    let mut text = String::new();
    loop
        invariant
            decimal(value as nat) == decimal(n as nat) + text@,
        decreases n,
    {
        let d: u128 = n % 10;
        let next = String::from_str(digit_str(d)).concat(text.as_str());
        if n < 10 {
            proof {
                assert(next@ =~= decimal(value as nat));
            }
            return next;
        }
        proof {
            assert(decimal(n as nat) == decimal((n / 10) as nat) + seq![digit_char((n % 10) as nat)]);
            assert(decimal(value as nat) =~= decimal((n / 10) as nat) + next@);
        }
        text = next;
        n = n / 10;
    }
}

/// What decoding PNG bytes with the image crate's built-in PNG decoder
/// yields: the image's size and its RGBA8 pixels, or the text of the
/// decoding error.
pub uninterp spec fn decoded_png_rgba8(bytes: Seq<u8>) -> Result<([u32; 2], Seq<u8>), Seq<char>>;

/// The view of a decoding result.
pub open spec fn decoded_view(decoded: Result<([u32; 2], Vec<u8>), String>) -> Result<([u32; 2], Seq<u8>), Seq<char>> {
    match decoded {
        Ok(p) => Ok((p.0, p.1@)),
        Err(e) => Err(e@),
    }
}

/// Decodes PNG bytes to RGBA8 with the image crate: an `ImageReader` with
/// the built-in PNG format (no format guessing, so no registered hooks are
/// consulted) and its default limits, then `to_rgba8`. The contract only
/// names the result, a function of the bytes; an error becomes its text.
#[verifier::external_body]
fn decode_png_rgba8(bytes: &[u8]) -> (decoded: Result<([u32; 2], Vec<u8>), String>)
    ensures
        decoded_view(decoded) == decoded_png_rgba8(bytes@),
{
    match image::ImageReader::with_format(std::io::Cursor::new(bytes), image::ImageFormat::Png).decode() {
        Ok(image) => {
            let image = image.to_rgba8();
            Ok(([image.width(), image.height()], image.into_raw()))
        },
        Err(error) => Err(error.to_string()),
    }
}

/// The decoded image, when decoding succeeded.
pub open spec fn ok_image(decoded: Result<([u32; 2], Seq<u8>), Seq<char>>) -> Option<([u32; 2], Seq<u8>)> {
    match decoded {
        Ok(p) => Some(p),
        Err(_) => None,
    }
}

/// The view of an image that may be missing.
pub open spec fn image_option_view(image: Option<([u32; 2], Vec<u8>)>) -> Option<([u32; 2], Seq<u8>)> {
    match image {
        Some(p) => Some((p.0, p.1@)),
        None => None,
    }
}

/// The message of an encoded image that does not decode.
pub open spec fn unreadable_message(source: Seq<char>, error: Seq<char>) -> Seq<char> {
    "Unable to read UI image '"@ + source + "': "@ + error
}

/// Some whole RGBA texel of `pixels` is not fully transparent.
pub open spec fn has_visible_texel(pixels: Seq<u8>) -> bool {
    exists|t: int| 0 <= t < pixels.len() / 4 && #[trigger] pixels[4 * t + 3] > 0
}

/// The pixels a built-in icon is stored with: the decoded image when it
/// decoded and shows something, else the 64 × 64 fallback raster.
pub open spec fn builtin_icon_choice(decoded: Option<([u32; 2], Seq<u8>)>, fallback: Seq<u8>) -> ([u32; 2], Seq<u8>) {
    if decoded is Some && has_visible_texel(decoded.unwrap().1) {
        decoded.unwrap()
    } else {
        ([64u32, 64u32], fallback)
    }
}

/// Whether some whole RGBA texel of `pixels` is not fully transparent.
pub fn has_visible_texel_bytes(pixels: &[u8]) -> (visible: bool)
    ensures
        visible == has_visible_texel(pixels@),
{
    let len: usize = pixels.len();
    let texels: usize = len / 4;
    let mut t: usize = 0;
    while t < texels
        invariant
            len == pixels@.len(),
            texels == pixels@.len() / 4,
            t <= texels,
            forall|u: int| 0 <= u < t ==> !(#[trigger] pixels@[4 * u + 3] > 0),
        decreases texels - t,
    {
        if pixels[4 * t + 3] > 0 {
            return true;
        }
        t += 1;
    }
    false
}

/// Picks the pixels of a built-in icon: the decoded image when it decoded
/// and shows something, else the fallback raster. A bad or accidentally
/// transparent asset must never turn a control into an empty box.
pub fn builtin_icon_pixels_or(decoded: Option<([u32; 2], Vec<u8>)>, fallback: Vec<u8>) -> (chosen: ([u32; 2], Vec<u8>))
    ensures
        (chosen.0, chosen.1@) == builtin_icon_choice(image_option_view(decoded), fallback@),
{
    match decoded {
        Some((size, pixels)) => {
            if has_visible_texel_bytes(pixels.as_slice()) {
                (size, pixels)
            } else {
                ([64, 64], fallback)
            }
        },
        None => ([64, 64], fallback),
    }
}

/// The message of pixels that do not match their size.
fn size_mismatch_text(actual: u128, expected: u128, width: u32, height: u32) -> (text: String)
    ensures
        text@ == size_mismatch_message(actual as int, expected as int, width, height),
{
    String::from_str("UI image has ").concat(decimal_string(actual).as_str()).concat(
        " bytes; expected ",
    ).concat(decimal_string(expected).as_str()).concat(" for ").concat(
        decimal_string(width as u128).as_str(),
    ).concat("x").concat(decimal_string(height as u128).as_str()).concat(" RGBA.")
}

/// The revision after `revision`: one more, skipping zero on wrap-around.
pub open spec fn next_image_revision(revision: u64) -> u64 {
    if revision == u64::MAX {
        1
    } else {
        (revision + 1) as u64
    }
}

/// The message of a refused image.
pub open spec fn size_mismatch_message(actual: int, expected: int, width: u32, height: u32) -> Seq<
    char,
> {
    "UI image has "@ + decimal(actual as nat) + " bytes; expected "@ + decimal(
        expected as nat,
    ) + " for "@ + decimal(width as nat) + "x"@ + decimal(height as nat) + " RGBA."@
}

impl UiSurfaceImageStore {
    pub closed spec fn well_formed(&self) -> bool {
        forall|i: int, j: int|
            0 <= i < self.images@.len() && 0 <= j < self.images@.len() && i != j ==> (
            #[trigger] self.images@[i]).key@ != (#[trigger] self.images@[j]).key@
    }

    /// The images by key.
    pub closed spec fn contents(&self) -> Map<Seq<char>, UiImageView> {
        Map::new(
            |k: Seq<char>| exists|i: int| 0 <= i < self.images@.len() && self.images@[i].key@ == k,
            |k: Seq<char>|
                self.images@[choose|i: int|
                    0 <= i < self.images@.len() && self.images@[i].key@ == k].data.image_view(),
        )
    }

    /// The keys in storage order.
    pub closed spec fn keys(&self) -> Seq<Seq<char>> {
        self.images@.map_values(|e: ImageEntry| e.key@)
    }

    proof fn lemma_contents_domain(&self)
        requires
            self.well_formed(),
        ensures
            self.contents().dom() =~= self.keys().to_set(),
            self.keys().no_duplicates(),
            self.contents().dom().finite(),
            self.contents().dom().len() == self.images@.len(),
    {
        vstd::seq_lib::seq_to_set_is_finite(self.keys());
        assert forall|k: Seq<char>| self.contents().dom().contains(k) implies self.keys().to_set().contains(k) by {
            let i = choose|i: int| 0 <= i < self.images@.len() && self.images@[i].key@ == k;
            assert(self.keys()[i] == k);
        }
        assert forall|k: Seq<char>| self.keys().to_set().contains(k) implies self.contents().dom().contains(k) by {
            let i = choose|i: int| 0 <= i < self.keys().len() && self.keys()[i] == k;
            assert(self.images@[i].key@ == k);
        }
        assert forall|i: int, j: int| 0 <= i < self.keys().len() && 0 <= j < self.keys().len() && i != j
            implies self.keys()[i] != self.keys()[j] by {
            assert(self.keys()[i] == self.images@[i].key@);
            assert(self.keys()[j] == self.images@[j].key@);
        }
        self.keys().unique_seq_to_set();
    }

    /// Where the image stored under `key` is.
    fn position(&self, key: &String) -> (found: Option<usize>)
        requires
            self.well_formed(),
        ensures
            found is None ==> !self.contents().contains_key(key@),
            found matches Some(i) ==> {
                &&& i < self.images@.len()
                &&& self.images@[i as int].key@ == key@
                &&& self.contents()[key@] == self.images@[i as int].data.image_view()
            },
    {
        let mut i: usize = 0;
        while i < self.images.len()
            invariant
                self.well_formed(),
                i <= self.images@.len(),
                forall|j: int| 0 <= j < i ==> self.images@[j].key@ != key@,
            decreases self.images@.len() - i,
        {
            if self.images[i].key == *key {
                proof {
                    let c = choose|c: int| 0 <= c < self.images@.len() && self.images@[c].key@ == key@;
                    assert(self.images@[i as int].key@ == key@);
                    assert(c == i);
                }
                return Some(i);
            }
            i += 1;
        }
        None
    }

    /// The image stored under `key`, if any.
    pub fn get(&self, key: &str) -> (found: Option<&UiSurfaceImageData>)
        requires
            self.well_formed(),
        ensures
            found is Some <==> self.contents().contains_key(key@),
            found matches Some(data) ==> data.image_view() == self.contents()[key@],
    {
        let owned = key.to_owned();
        match self.position(&owned) {
            Some(i) => Some(&self.images[i].data),
            None => None,
        }
    }

    /// Number of stored images.
    pub fn len(&self) -> (count: usize)
        requires
            self.well_formed(),
        ensures
            count == self.contents().dom().len(),
    {
        proof {
            self.lemma_contents_domain();
        }
        self.images.len()
    }

    pub fn is_empty(&self) -> (empty: bool)
        requires
            self.well_formed(),
        ensures
            empty == (self.contents().dom().len() == 0),
    {
        proof {
            self.lemma_contents_domain();
        }
        self.images.len() == 0
    }

    /// Takes the image stored under `key` out of the store.
    pub fn remove(&mut self, key: &str) -> (removed: Option<UiSurfaceImageData>)
        requires
            old(self).well_formed(),
        ensures
            final(self).well_formed(),
            removed is Some <==> old(self).contents().contains_key(key@),
            removed matches Some(data) ==> data.image_view() == old(self).contents()[key@],
            final(self).contents() == old(self).contents().remove(key@),
            final(self).contents().dom().finite(),
            final(self).contents().dom().len() == old(self).contents().dom().len() - (if removed is Some {
                1int
            } else {
                0int
            }),
            final(self).last_revision() == old(self).last_revision(),
    {
        proof {
            self.lemma_contents_domain();
        }
        let owned = key.to_owned();
        match self.position(&owned) {
            Some(i) => {
                let ghost before = self.images@;
                let entry = self.images.remove(i);
                proof {
                    assert forall|a: int, b: int|
                        0 <= a < self.images@.len() && 0 <= b < self.images@.len() && a != b implies (
                        #[trigger] self.images@[a]).key@ != (#[trigger] self.images@[b]).key@ by {
                        let a0 = if a < i { a } else { a + 1 };
                        let b0 = if b < i { b } else { b + 1 };
                        assert(self.images@[a] == before[a0]);
                        assert(self.images@[b] == before[b0]);
                    }
                    assert forall|k: Seq<char>| #[trigger] self.contents().dom().contains(k) <==> old(
                        self,
                    ).contents().remove(key@).dom().contains(k) by {
                        if self.contents().dom().contains(k) {
                            let a = choose|a: int| 0 <= a < self.images@.len() && self.images@[a].key@ == k;
                            let a0 = if a < i { a } else { a + 1 };
                            assert(before[a0].key@ == k);
                        }
                        if old(self).contents().remove(key@).dom().contains(k) {
                            let a0 = choose|a: int| 0 <= a < before.len() && before[a].key@ == k;
                            assert(a0 != i);
                            let a = if a0 < i { a0 } else { a0 - 1 };
                            assert(self.images@[a].key@ == k);
                        }
                    }
                    assert forall|k: Seq<char>| #[trigger] self.contents().dom().contains(k) implies self.contents()[k]
                        == old(self).contents()[k] by {
                        let a = choose|a: int| 0 <= a < self.images@.len() && self.images@[a].key@ == k;
                        let a0 = if a < i { a } else { a + 1 };
                        assert(self.images@[a] == before[a0]);
                        let c = choose|c: int| 0 <= c < before.len() && before[c].key@ == k;
                        assert(c == a0);
                    }
                    assert(self.contents() =~= old(self).contents().remove(key@));
                    self.lemma_contents_domain();
                }
                Some(entry.data)
            },
            None => {
                proof {
                    assert(self.contents() =~= old(self).contents().remove(key@));
                }
                None
            },
        }
    }

    /// Stores RGBA8 pixels under `key`, replacing any image stored there.
    /// A zero dimension counts as one. The pixels must be exactly
    /// width × height × 4 bytes; otherwise the store is left unchanged and
    /// the error says what was expected. Each stored image gets the next
    /// revision, which is never zero.
    pub fn insert_rgba(&mut self, key: &str, size: [u32; 2], pixels: Vec<u8>) -> (result: Result<
        (),
        String,
    >)
        requires
            old(self).well_formed(),
            rgba_len(size) <= usize::MAX,
        ensures
            final(self).well_formed(),
            final(self).contents().dom().finite(),
            result is Ok <==> pixels@.len() == rgba_len(size),
            result matches Err(message) ==> {
                &&& message@ == size_mismatch_message(
                    pixels@.len() as int,
                    rgba_len(size),
                    at_least_one(size[0]),
                    at_least_one(size[1]),
                )
                &&& final(self).contents() == old(self).contents()
                &&& final(self).last_revision() == old(self).last_revision()
            },
            result is Ok ==> {
                &&& final(self).last_revision() == next_image_revision(old(self).last_revision())
                &&& final(self).contents() == old(self).contents().insert(
                    key@,
                    UiImageView {
                        size: [at_least_one(size[0]), at_least_one(size[1])],
                        pixels: pixels@,
                        revision: final(self).last_revision(),
                    },
                )
            },
    {
        proof {
            self.lemma_contents_domain();
        }
        let width = size[0].max(1);
        let height = size[1].max(1);
        let expected = width as usize * height as usize * 4;
        if pixels.len() != expected {
            let message = size_mismatch_text(pixels.len() as u128, expected as u128, width, height);
            return Err(message);
        }
        self.next_revision = self.next_revision.wrapping_add(1).max(1);
        let owned = key.to_owned();
        let data = UiSurfaceImageData { size: [width, height], pixels, revision: self.next_revision };
        let ghost view = data.image_view();
        let ghost before = self.images@;
        match self.position(&owned) {
            Some(i) => {
                self.images.set(i, ImageEntry { key: owned, data });
                proof {
                    assert forall|a: int, b: int|
                        0 <= a < self.images@.len() && 0 <= b < self.images@.len() && a != b implies (
                        #[trigger] self.images@[a]).key@ != (#[trigger] self.images@[b]).key@ by {
                        assert(self.images@[a].key@ == before[a].key@);
                        assert(self.images@[b].key@ == before[b].key@);
                    }
                    assert forall|k: Seq<char>| #[trigger] self.contents().dom().contains(k) <==> old(
                        self,
                    ).contents().insert(key@, view).dom().contains(k) by {
                        if old(self).contents().dom().contains(k) {
                            let a = choose|a: int| 0 <= a < before.len() && before[a].key@ == k;
                            assert(self.images@[a].key@ == k);
                        }
                        if self.contents().dom().contains(k) {
                            let a = choose|a: int| 0 <= a < self.images@.len() && self.images@[a].key@ == k;
                            assert(before[a].key@ == k);
                        }
                    }
                    assert forall|k: Seq<char>| #[trigger] self.contents().dom().contains(k) implies self.contents()[k]
                        == old(self).contents().insert(key@, view)[k] by {
                        let a = choose|a: int| 0 <= a < self.images@.len() && self.images@[a].key@ == k;
                        if k != key@ {
                            assert(a != i);
                            assert(before[a].key@ == k);
                            let c = choose|c: int| 0 <= c < before.len() && before[c].key@ == k;
                            assert(c == a);
                        } else {
                            assert(self.images@[i as int].key@ == k);
                            assert(a == i);
                        }
                    }
                    assert(self.contents() =~= old(self).contents().insert(key@, view));
                }
            },
            None => {
                self.images.push(ImageEntry { key: owned, data });
                proof {
                    let n = before.len() as int;
                    assert forall|a: int, b: int|
                        0 <= a < self.images@.len() && 0 <= b < self.images@.len() && a != b implies (
                        #[trigger] self.images@[a]).key@ != (#[trigger] self.images@[b]).key@ by {
                        if a < n && b < n {
                            assert(self.images@[a] == before[a]);
                            assert(self.images@[b] == before[b]);
                        } else if a < n {
                            assert(self.images@[a] == before[a]);
                            assert(old(self).contents().dom().contains(before[a].key@));
                        } else if b < n {
                            assert(self.images@[b] == before[b]);
                            assert(old(self).contents().dom().contains(before[b].key@));
                        }
                    }
                    assert forall|k: Seq<char>| #[trigger] self.contents().dom().contains(k) <==> old(
                        self,
                    ).contents().insert(key@, view).dom().contains(k) by {
                        if old(self).contents().dom().contains(k) {
                            let a = choose|a: int| 0 <= a < before.len() && before[a].key@ == k;
                            assert(self.images@[a].key@ == k);
                        }
                        if k == key@ {
                            assert(self.images@[n].key@ == k);
                        }
                        if self.contents().dom().contains(k) && k != key@ {
                            let a = choose|a: int| 0 <= a < self.images@.len() && self.images@[a].key@ == k;
                            assert(a < n);
                            assert(before[a].key@ == k);
                        }
                    }
                    assert forall|k: Seq<char>| #[trigger] self.contents().dom().contains(k) implies self.contents()[k]
                        == old(self).contents().insert(key@, view)[k] by {
                        let a = choose|a: int| 0 <= a < self.images@.len() && self.images@[a].key@ == k;
                        if k != key@ {
                            assert(a < n);
                            assert(before[a] == self.images@[a]);
                            let c = choose|c: int| 0 <= c < before.len() && before[c].key@ == k;
                            assert(c == a);
                        } else {
                            assert(self.images@[n].key@ == k);
                            assert(a == n);
                        }
                    }
                    assert(self.contents() =~= old(self).contents().insert(key@, view));
                }
            },
        }
        proof {
            self.lemma_contents_domain();
        }
        Ok(())
    }


    /// Makes sure the store holds the built-in icon `key`: if it does not,
    /// stores the icon's PNG image `png` decoded, or the 64 × 64
    /// `fallback` raster when there is none, it does not decode, or it is
    /// fully transparent. Pixels that do not match their size are not
    /// stored.
    pub fn ensure_builtin_icon(&mut self, key: &str, png: Option<&[u8]>, fallback: Vec<u8>)
        requires
            old(self).well_formed(),
            fallback@.len() == 64 * 64 * 4,
        ensures
            final(self).well_formed(),
            final(self).contents().dom().finite(),
            old(self).contents().contains_key(key@) ==> final(self).contents() == old(self).contents()
                && final(self).last_revision() == old(self).last_revision(),
            !old(self).contents().contains_key(key@) ==> ({
                let decoded = match png {
                    Some(bytes) => ok_image(decoded_png_rgba8(bytes@)),
                    None => None,
                };
                let (size, pixels) = builtin_icon_choice(decoded, fallback@);
                if rgba_len(size) <= usize::MAX && pixels.len() == rgba_len(size) {
                    &&& final(self).last_revision() == next_image_revision(old(self).last_revision())
                    &&& final(self).contents() == old(self).contents().insert(
                        key@,
                        UiImageView {
                            size: [at_least_one(size[0]), at_least_one(size[1])],
                            pixels,
                            revision: final(self).last_revision(),
                        },
                    )
                } else {
                    &&& final(self).contents() == old(self).contents()
                    &&& final(self).last_revision() == old(self).last_revision()
                }
            }),
    {
        proof {
            self.lemma_contents_domain();
        }
        let owned = key.to_owned();
        if self.position(&owned).is_some() {
            return;
        }
        let decoded = match png {
            Some(bytes) => match decode_png_rgba8(bytes) {
                Ok(image) => Some(image),
                Err(_) => None,
            },
            None => None,
        };
        let chosen = builtin_icon_pixels_or(decoded, fallback);
        let size: [u32; 2] = chosen.0;
        let width: u128 = if size[0] == 0 { 1 } else { size[0] as u128 };
        let height: u128 = if size[1] == 0 { 1 } else { size[1] as u128 };
        assert(width * height * 4 <= 0xffff_ffff * 0xffff_ffff * 4) by (nonlinear_arith)
            requires
                width <= 0xffff_ffff,
                height <= 0xffff_ffff,
        ;
        if width * height * 4 > usize::MAX as u128 {
            return;
        }
        let _ = self.insert_rgba(key, size, chosen.1);
    }


    /// Stores a decoded image read from `source` under `key` as
    /// `insert_rgba` does; a decoding error leaves the store unchanged and
    /// is reported with the source named.
    pub fn insert_decoded(
        &mut self,
        key: &str,
        source: &str,
        decoded: Result<([u32; 2], Vec<u8>), String>,
    ) -> (result: Result<(), String>)
        requires
            old(self).well_formed(),
        ensures
            final(self).well_formed(),
            final(self).contents().dom().finite(),
            match decoded_view(decoded) {
                Err(error) => {
                    &&& result matches Err(message) && message@ == unreadable_message(source@, error)
                    &&& final(self).contents() == old(self).contents()
                    &&& final(self).last_revision() == old(self).last_revision()
                },
                Ok((size, pixels)) => if pixels.len() == rgba_len(size) {
                    &&& result is Ok
                    &&& final(self).last_revision() == next_image_revision(old(self).last_revision())
                    &&& final(self).contents() == old(self).contents().insert(
                        key@,
                        UiImageView {
                            size: [at_least_one(size[0]), at_least_one(size[1])],
                            pixels,
                            revision: final(self).last_revision(),
                        },
                    )
                } else {
                    &&& result matches Err(message) && message@ == size_mismatch_message(
                        pixels.len() as int,
                        rgba_len(size),
                        at_least_one(size[0]),
                        at_least_one(size[1]),
                    )
                    &&& final(self).contents() == old(self).contents()
                    &&& final(self).last_revision() == old(self).last_revision()
                },
            },
    {
        proof {
            self.lemma_contents_domain();
        }
        match decoded {
            Err(error) => {
                let message = String::from_str("Unable to read UI image '").concat(source).concat(
                    "': ",
                ).concat(error.as_str());
                Err(message)
            },
            Ok((size, pixels)) => {
                let width: u32 = if size[0] == 0 { 1 } else { size[0] };
                let height: u32 = if size[1] == 0 { 1 } else { size[1] };
                assert(width * height * 4 <= 0xffff_ffff * 0xffff_ffff * 4) by (nonlinear_arith)
                    requires
                        width <= 0xffff_ffff,
                        height <= 0xffff_ffff,
                ;
                let expected: u128 = width as u128 * height as u128 * 4;
                if expected > usize::MAX as u128 {
                    let count: usize = pixels.len();
                    return Err(size_mismatch_text(count as u128, expected, width, height));
                }
                self.insert_rgba(key, size, pixels)
            },
        }
    }

    /// Decodes the PNG image `bytes`, read from `source`, and stores its
    /// RGBA8 pixels under `key` as `insert_rgba` does. Bytes that do not
    /// decode leave the store unchanged and the error names the source.
    pub fn insert_encoded(&mut self, key: &str, source: &str, bytes: &[u8]) -> (result: Result<(), String>)
        requires
            old(self).well_formed(),
        ensures
            final(self).well_formed(),
            final(self).contents().dom().finite(),
            match decoded_png_rgba8(bytes@) {
                Err(error) => {
                    &&& result matches Err(message) && message@ == unreadable_message(source@, error)
                    &&& final(self).contents() == old(self).contents()
                    &&& final(self).last_revision() == old(self).last_revision()
                },
                Ok((size, pixels)) => if pixels.len() == rgba_len(size) {
                    &&& result is Ok
                    &&& final(self).last_revision() == next_image_revision(old(self).last_revision())
                    &&& final(self).contents() == old(self).contents().insert(
                        key@,
                        UiImageView {
                            size: [at_least_one(size[0]), at_least_one(size[1])],
                            pixels,
                            revision: final(self).last_revision(),
                        },
                    )
                } else {
                    &&& result matches Err(message) && message@ == size_mismatch_message(
                        pixels.len() as int,
                        rgba_len(size),
                        at_least_one(size[0]),
                        at_least_one(size[1]),
                    )
                    &&& final(self).contents() == old(self).contents()
                    &&& final(self).last_revision() == old(self).last_revision()
                },
            },
    {
        let decoded = decode_png_rgba8(bytes);
        self.insert_decoded(key, source, decoded)
    }

    pub closed spec fn last_revision(&self) -> u64 {
        self.next_revision
    }

    pub fn new() -> (store: Self)
        ensures
            store.well_formed(),
            store.contents() == Map::<Seq<char>, UiImageView>::empty(),
            store.contents().dom().finite(),
            store.last_revision() == 0,
    {
        let store = UiSurfaceImageStore { images: Vec::new(), next_revision: 0 };
        proof {
            assert(store.contents() =~= Map::<Seq<char>, UiImageView>::empty());
        }
        store
    }
}

impl Default for UiSurfaceImageStore {
    fn default() -> (store: Self)
        ensures
            store.well_formed(),
            store.contents() == Map::<Seq<char>, UiImageView>::empty(),
            store.last_revision() == 0,
    {
        UiSurfaceImageStore::new()
    }
}

/// Paints one white pixel with the given coverage into a 64 × 64 RGBA icon
/// raster.
pub fn write_icon_pixel(pixels: &mut [u8], x: usize, y: usize, alpha: u8)
    requires
        (y * 64 + x) * 4 + 4 <= old(pixels)@.len(),
    ensures
        final(pixels)@ == old(pixels)@.update((y * 64 + x) * 4, 255u8).update(
            (y * 64 + x) * 4 + 1,
            255u8,
        ).update((y * 64 + x) * 4 + 2, 255u8).update((y * 64 + x) * 4 + 3, alpha),
{
    let len = pixels.len();
    assert(len == old(pixels)@.len());
    let index = (y * 64 + x) * 4;
    pixels[index] = 255;
    pixels[index + 1] = 255;
    pixels[index + 2] = 255;
    pixels[index + 3] = alpha;
}

} // verus!
