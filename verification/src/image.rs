//! Images that the terminal holds and the placements that show them.
//!
//! A [`KittyImage`] stands for an image that was uploaded to the terminal, a
//! [`KittyImagePlacement`] for one place on the screen where the image is
//! shown. Both are handles: the terminal owns what they name, and forgets it
//! when the handle is released.
//!
//! Releasing consumes the handle, so each one is released at most once, and a
//! placement borrows its image, so the image cannot be released while one of
//! its placements is still held. A handle that is dropped without a release
//! writes nothing: the terminal then keeps what the handle named.

use vstd::prelude::*;
use crate::fields::{
    Field, KittyImageFields, lemma_index_of_absent, lemma_with_field_unique, with_field,
};
use crate::frame::{Frame, frame_text, kitty_image_write, lemma_single_frame, message, quiet_of};
use crate::payload::{base64_standard, encoded_len};
use crate::registry::{IdKind, KittyIdRegistry};
use crate::value::KittyImageCmdValue;

verus! {

/// The fields of the command that uploads an image: the caller's fields with
/// `i` set to the image's identifier.
pub open spec fn upload_fields(fields: Seq<Field>, image: u32) -> Seq<Field> {
    with_field(fields, 'i', KittyImageCmdValue::U(image))
}

/// The fields of the command that shows an image: the caller's fields with
/// `a` set to `p`, `i` to the image's identifier and `p` to the placement's.
pub open spec fn placement_fields(fields: Seq<Field>, image: u32, placement: u32) -> Seq<Field> {
    with_field(
        with_field(
            with_field(fields, 'a', KittyImageCmdValue::C('p')),
            'i',
            KittyImageCmdValue::U(image),
        ),
        'p',
        KittyImageCmdValue::U(placement),
    )
}

/// The fields of the command that deletes an image: `a=d,d=I,i=<image>`.
pub open spec fn delete_image_fields(image: u32) -> Seq<Field> {
    seq![
        ('a', KittyImageCmdValue::C('d')),
        ('d', KittyImageCmdValue::C('I')),
        ('i', KittyImageCmdValue::U(image)),
    ]
}

/// The fields of the command that deletes a placement:
/// `a=d,d=i,i=<image>,p=<placement>`.
pub open spec fn delete_placement_fields(image: u32, placement: u32) -> Seq<Field> {
    seq![
        ('a', KittyImageCmdValue::C('d')),
        ('d', KittyImageCmdValue::C('i')),
        ('i', KittyImageCmdValue::U(image)),
        ('p', KittyImageCmdValue::U(placement)),
    ]
}

/// The one frame of a command without payload and without a `q` field: the
/// default quiet level, the fields, nothing more.
pub open spec fn control_frame(fields: Seq<Field>) -> Seq<char> {
    frame_text(
        (Frame {
            quiet: KittyImageCmdValue::U(0),
            fields,
            more: None,
            payload: Seq::empty(),
        }),
    )
}

/// An image that the terminal holds, shown or not.
#[derive(Debug)]
pub struct KittyImage {
    id: u32,
}

/// A place on the screen where an image is shown.
#[derive(Debug)]
pub struct KittyImagePlacement<'a> {
    img: &'a KittyImage,
    id: u32,
}

impl KittyImage {
    /// The image's identifier.
    pub closed spec fn spec_id(&self) -> u32 {
        self.id
    }

    /// The image's identifier.
    #[verifier::when_used_as_spec(spec_id)]
    pub fn id(&self) -> (id: u32)
        ensures
            id == self.spec_id(),
    {
        self.id
    }

    /// Uploads the image `img` to the terminal: draws the next image
    /// identifier from `ids` and writes the upload command, with the
    /// caller's fields and that identifier, to `out`.
    pub fn new(
        img: Vec<u8>,
        fields: KittyImageFields,
        ids: &mut KittyIdRegistry,
        out: &mut String,
    ) -> (image: Self)
        requires
            fields.wf(),
            old(ids)@.has_next(IdKind::Image),
            encoded_len(img@.len()) <= usize::MAX,
        ensures
            image.id() == old(ids)@.next(IdKind::Image),
            final(ids)@ == old(ids)@.after(IdKind::Image),
            final(out)@ == old(out)@ + message(
                upload_fields(fields@, image.id()),
                base64_standard(img@),
            ),
    {
        let id = ids.next_image_id();
        let mut fields = fields;
        proof {
            lemma_with_field_unique(fields@, 'i', KittyImageCmdValue::U(id));
        }
        fields.insert('i', KittyImageCmdValue::U(id));
        let _ = kitty_image_write(img.as_slice(), fields, out);
        KittyImage { id }
    }

    /// Shows the image: draws the next placement identifier from `ids` and
    /// writes the command that places the image, with the caller's fields
    /// and both identifiers, to `out`.
    pub fn place<'a>(
        &'a self,
        fields: KittyImageFields,
        ids: &mut KittyIdRegistry,
        out: &mut String,
    ) -> (placement: KittyImagePlacement<'a>)
        requires
            fields.wf(),
            old(ids)@.has_next(IdKind::Placement),
        ensures
            placement.id() == old(ids)@.next(IdKind::Placement),
            placement.image_id() == self.id(),
            final(ids)@ == old(ids)@.after(IdKind::Placement),
            final(out)@ == old(out)@ + message(
                placement_fields(fields@, self.id(), placement.id()),
                Seq::empty(),
            ),
    {
        let id = ids.next_placement_id();
        let mut fields = fields;
        fields.insert('a', KittyImageCmdValue::C('p'));
        fields.insert('i', KittyImageCmdValue::U(self.id));
        proof {
            lemma_with_field_unique(fields@, 'p', KittyImageCmdValue::U(id));
        }
        fields.insert('p', KittyImageCmdValue::U(id));
        let payload: Vec<u8> = Vec::new();
        let _ = kitty_image_write(payload.as_slice(), fields, out);
        assert(base64_standard(payload@) =~= Seq::<char>::empty());
        KittyImagePlacement { img: self, id }
    }

    /// Releases the image: writes the one frame that deletes it from the
    /// terminal to `out`.
    pub fn release(self, out: &mut String)
        ensures
            final(out)@ == old(out)@ + control_frame(delete_image_fields(self.id())),
    {
        let mut fields = KittyImageFields::new();
        fields.insert('a', KittyImageCmdValue::C('d'));
        fields.insert('d', KittyImageCmdValue::C('I'));
        fields.insert('i', KittyImageCmdValue::U(self.id));
        proof {
            lemma_delete_image_fields(self.id);
        }
        assert(fields@ =~= delete_image_fields(self.id));
        write_control(fields, out);
    }
}

impl<'a> KittyImagePlacement<'a> {
    /// The placement's identifier.
    pub closed spec fn spec_id(&self) -> u32 {
        self.id
    }

    /// The identifier of the image that the placement shows.
    pub closed spec fn spec_image_id(&self) -> u32 {
        self.img.id
    }

    /// The placement's identifier.
    #[verifier::when_used_as_spec(spec_id)]
    pub fn id(&self) -> (id: u32)
        ensures
            id == self.spec_id(),
    {
        self.id
    }

    /// The identifier of the image that the placement shows.
    #[verifier::when_used_as_spec(spec_image_id)]
    pub fn image_id(&self) -> (id: u32)
        ensures
            id == self.spec_image_id(),
    {
        self.img.id
    }

    /// Releases the placement: writes the one frame that takes it off the
    /// screen to `out`.
    pub fn release(self, out: &mut String)
        ensures
            final(out)@ == old(out)@ + control_frame(
                delete_placement_fields(self.image_id(), self.id()),
            ),
    {
        let mut fields = KittyImageFields::new();
        fields.insert('a', KittyImageCmdValue::C('d'));
        fields.insert('d', KittyImageCmdValue::C('i'));
        fields.insert('i', KittyImageCmdValue::U(self.img.id));
        fields.insert('p', KittyImageCmdValue::U(self.id));
        proof {
            lemma_delete_placement_fields(self.img.id, self.id);
        }
        assert(fields@ =~= delete_placement_fields(self.img.id, self.id));
        write_control(fields, out);
    }
}

/// Writes a command without payload and without a `q` field: one frame.
fn write_control(fields: KittyImageFields, out: &mut String)
    requires
        fields.wf(),
        fields@.len() > 0,
        forall|i: int| 0 <= i < fields@.len() ==> fields@[i].0 != 'q',
    ensures
        final(out)@ == old(out)@ + control_frame(fields@),
{
    proof {
        lemma_index_of_absent(fields@, 'q');
        lemma_single_frame(fields@, Seq::empty());
    }
    let payload: Vec<u8> = Vec::new();
    let _ = kitty_image_write(payload.as_slice(), fields, out);
    assert(base64_standard(payload@) =~= Seq::<char>::empty());
}

/// The three fields of a delete-image command, set one after the other into
/// an empty field set, stand in the order in which they were set.
proof fn lemma_delete_image_fields(image: u32)
    ensures
        with_field(
            with_field(
                with_field(Seq::empty(), 'a', KittyImageCmdValue::C('d')),
                'd',
                KittyImageCmdValue::C('I'),
            ),
            'i',
            KittyImageCmdValue::U(image),
        ) =~= delete_image_fields(image),
{
    let none = Seq::<Field>::empty();
    let one = none.push(('a', KittyImageCmdValue::C('d')));
    let two = one.push(('d', KittyImageCmdValue::C('I')));
    lemma_index_of_absent(none, 'a');
    lemma_index_of_absent(one, 'd');
    lemma_index_of_absent(two, 'i');
}

/// The four fields of a delete-placement command, set one after the other
/// into an empty field set, stand in the order in which they were set.
proof fn lemma_delete_placement_fields(image: u32, placement: u32)
    ensures
        with_field(
            with_field(
                with_field(
                    with_field(Seq::empty(), 'a', KittyImageCmdValue::C('d')),
                    'd',
                    KittyImageCmdValue::C('i'),
                ),
                'i',
                KittyImageCmdValue::U(image),
            ),
            'p',
            KittyImageCmdValue::U(placement),
        ) =~= delete_placement_fields(image, placement),
{
    let none = Seq::<Field>::empty();
    let one = none.push(('a', KittyImageCmdValue::C('d')));
    let two = one.push(('d', KittyImageCmdValue::C('i')));
    let three = two.push(('i', KittyImageCmdValue::U(image)));
    lemma_index_of_absent(none, 'a');
    lemma_index_of_absent(one, 'd');
    lemma_index_of_absent(two, 'i');
    lemma_index_of_absent(three, 'p');
}

} // verus!
