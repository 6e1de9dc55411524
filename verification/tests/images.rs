use base64::Engine;
use piecetedrevival::fields::KittyImageFields;
use piecetedrevival::image::{KittyImage, KittyImagePlacement};
use piecetedrevival::registry::{KittyIdRegistry, FIRST_ID};
use piecetedrevival::value::KittyImageCmdValue;

/// Cuts a stream into the heads and payloads of its frames.
fn frames_of(stream: &str) -> Vec<(String, String)> {
    let mut frames = Vec::new();
    let mut rest = stream;
    while !rest.is_empty() {
        assert!(rest.starts_with("\x1b_G"), "a frame starts with the introducer");
        let end = rest.find("\x1b\\").expect("a frame ends with the terminator");
        let body = &rest[3..end];
        let semi = body.find(';').expect("a frame has a payload separator");
        frames.push((body[..semi].to_string(), body[semi + 1..].to_string()));
        rest = &rest[end + 2..];
    }
    frames
}

fn png_fields() -> KittyImageFields {
    let mut fields = KittyImageFields::new();
    fields.insert('f', KittyImageCmdValue::U(100));
    fields
}

#[test]
fn upload_of_ten_thousand_bytes_spans_four_frames() {
    let raw: Vec<u8> = (0..10000usize).map(|at| (at % 251) as u8).collect();
    let encoded = base64::engine::general_purpose::STANDARD.encode(&raw);
    assert_eq!(encoded.len(), 13336);

    let mut ids = KittyIdRegistry::new();
    let mut out = String::new();
    let image = KittyImage::new(raw, png_fields(), &mut ids, &mut out);
    assert_eq!(image.id(), 10);

    let frames = frames_of(&out);
    assert_eq!(frames.len(), 4);
    assert_eq!(frames[0].0, "q=0,f=100,i=10,m=1");
    assert_eq!(frames[0].1, &encoded[..4096]);
    assert_eq!(frames[1].0, "q=0,m=1");
    assert_eq!(frames[1].1, &encoded[4096..8192]);
    assert_eq!(frames[2].0, "q=0,m=1");
    assert_eq!(frames[2].1, &encoded[8192..12288]);
    assert_eq!(frames[3].0, "q=0,m=0");
    assert_eq!(frames[3].1, &encoded[12288..]);
    assert_eq!(frames[3].1.len(), 1048);
}

#[test]
fn placements_are_released_before_their_image() {
    let mut ids = KittyIdRegistry::new();
    let mut out = String::new();
    let image = KittyImage::new(vec![1, 2, 3], png_fields(), &mut ids, &mut out);
    let first = image.place(KittyImageFields::new(), &mut ids, &mut out);
    let second = image.place(KittyImageFields::new(), &mut ids, &mut out);
    assert_eq!(
        out,
        "\x1b_Gq=0,f=100,i=10;AQID\x1b\\\x1b_Gq=0,a=p,i=10,p=10;\x1b\\\x1b_Gq=0,a=p,i=10,p=11;\x1b\\"
    );

    let mut released = String::new();
    first.release(&mut released);
    second.release(&mut released);
    image.release(&mut released);
    let frames = frames_of(&released);
    assert_eq!(frames.len(), 3);
    assert_eq!(
        released,
        "\x1b_Gq=0,a=d,d=i,i=10,p=10;\x1b\\\x1b_Gq=0,a=d,d=i,i=10,p=11;\x1b\\\x1b_Gq=0,a=d,d=I,i=10;\x1b\\"
    );
}

#[test]
fn image_release_writes_one_delete_frame() {
    let mut ids = KittyIdRegistry::new();
    let mut out = String::new();
    let image = KittyImage::new(Vec::new(), png_fields(), &mut ids, &mut out);
    assert_eq!(out, "\x1b_Gq=0,f=100,i=10;\x1b\\");
    let mut released = String::from("kept");
    image.release(&mut released);
    assert_eq!(released, "kept\x1b_Gq=0,a=d,d=I,i=10;\x1b\\");
}

#[test]
fn placement_release_writes_one_delete_frame() {
    let mut ids = KittyIdRegistry::new();
    let mut out = String::new();
    let _skipped = KittyImage::new(Vec::new(), png_fields(), &mut ids, &mut out);
    let image = KittyImage::new(Vec::new(), png_fields(), &mut ids, &mut out);
    let _other = image.place(KittyImageFields::new(), &mut ids, &mut out);
    let placement = image.place(KittyImageFields::new(), &mut ids, &mut out);
    assert_eq!(placement.image_id(), 11);
    assert_eq!(placement.id(), 11);
    let mut released = String::new();
    placement.release(&mut released);
    assert_eq!(released, "\x1b_Gq=0,a=d,d=i,i=11,p=11;\x1b\\");
}

#[test]
fn place_adds_its_fields_after_the_callers() {
    let mut ids = KittyIdRegistry::new();
    let mut out = String::new();
    let image = KittyImage::new(Vec::new(), png_fields(), &mut ids, &mut out);
    let mut fields = KittyImageFields::new();
    fields.insert('X', KittyImageCmdValue::U(4));
    fields.insert('z', KittyImageCmdValue::I(-1));
    fields.insert('q', KittyImageCmdValue::U(2));
    let mut placed = String::new();
    let placement: KittyImagePlacement = image.place(fields, &mut ids, &mut placed);
    assert_eq!(placed, "\x1b_Gq=2,X=4,z=-1,a=p,i=10,p=10;\x1b\\");
    assert_eq!(placement.id(), 10);
    assert_eq!(placement.image_id(), image.id());
}

#[test]
fn identifiers_of_the_library_replace_the_callers() {
    let mut ids = KittyIdRegistry::new();
    let mut out = String::new();
    let mut fields = KittyImageFields::new();
    fields.insert('i', KittyImageCmdValue::U(3));
    fields.insert('f', KittyImageCmdValue::U(24));
    let image = KittyImage::new(vec![0], fields, &mut ids, &mut out);
    assert_eq!(out, "\x1b_Gq=0,i=10,f=24;AA==\x1b\\");

    let mut fields = KittyImageFields::new();
    fields.insert('p', KittyImageCmdValue::U(1));
    fields.insert('a', KittyImageCmdValue::C('T'));
    let mut placed = String::new();
    let _placement = image.place(fields, &mut ids, &mut placed);
    assert_eq!(placed, "\x1b_Gq=0,p=10,a=p,i=10;\x1b\\");
}

#[test]
fn every_upload_and_placement_gets_an_identifier_of_its_own() {
    let mut ids = KittyIdRegistry::new();
    let mut out = String::new();
    let mut images = Vec::new();
    for _ in 0..25 {
        images.push(KittyImage::new(vec![7, 7], png_fields(), &mut ids, &mut out));
    }
    let mut placements = Vec::new();
    for at in 0..40 {
        placements.push(images[at % 25].place(KittyImageFields::new(), &mut ids, &mut out));
    }

    let image_ids: Vec<u32> = images.iter().map(|image| image.id()).collect();
    let placement_ids: Vec<u32> = placements.iter().map(|placement| placement.id()).collect();
    assert_eq!(image_ids, (10..35).collect::<Vec<u32>>());
    assert_eq!(placement_ids, (10..50).collect::<Vec<u32>>());
    for (at, placement) in placements.iter().enumerate() {
        assert_eq!(placement.image_id(), 10 + (at % 25) as u32);
    }

    let mut released = String::new();
    for placement in placements {
        placement.release(&mut released);
    }
    for image in images {
        image.release(&mut released);
    }
    let frames = frames_of(&released);
    assert_eq!(frames.len(), 65);
    for at in 0..40 {
        assert_eq!(frames[at].0, format!("q=0,a=d,d=i,i={},p={}", 10 + at % 25, 10 + at));
        assert_eq!(frames[at].1, "");
    }
    for at in 0..25 {
        assert_eq!(frames[40 + at].0, format!("q=0,a=d,d=I,i={}", 10 + at));
        assert_eq!(frames[40 + at].1, "");
    }
}

#[test]
fn the_two_counters_are_independent() {
    let mut ids = KittyIdRegistry::new();
    assert!(ids.has_image_id());
    assert!(ids.has_placement_id());
    assert_eq!(ids.next_image_id(), FIRST_ID);
    assert_eq!(ids.next_image_id(), 11);
    assert_eq!(ids.next_image_id(), 12);
    assert_eq!(ids.next_placement_id(), FIRST_ID);
    assert_eq!(ids.next_image_id(), 13);
    assert_eq!(ids.next_placement_id(), 11);
}

#[test]
fn two_registries_count_apart() {
    let mut one = KittyIdRegistry::new();
    let mut two = KittyIdRegistry::new();
    assert_eq!(one.next_image_id(), 10);
    assert_eq!(one.next_image_id(), 11);
    assert_eq!(two.next_image_id(), 10);
}
