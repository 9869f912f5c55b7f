use velocity::animation::{haxe_int, FrameSequence, Playback};
use velocity::atlas::{prefix_order, FrameFlags, FrameNames};
use velocity::sparrow::{parse_sparrow, take_event, SparrowState, SparrowStep, XmlEvent, XmlTag};

const PLAIN: FrameFlags = FrameFlags { rotated: false, flip_x: false, flip_y: false, empty: false };

/// An animated sprite as the game drives it: the playback controller and
/// the fraction of a frame elapsed.
struct Animated {
    playback: Playback<f32>,
    elapsed: f64,
    atlas: usize,
}

impl Animated {
    fn new(atlas: usize) -> Self {
        Animated { playback: Playback::new(), elapsed: 0., atlas }
    }

    fn add_animation(&mut self, name: &str, frames: &[u32], fps: f32, looping: bool) -> Result<(), String> {
        if !fps.is_finite() || fps < 0. {
            return Err("invalid animation frames or framerate".into());
        }
        if self.playback.add(name, frames, self.atlas, fps, looping)? {
            self.elapsed = 0.;
        }
        Ok(())
    }

    fn play(&mut self, name: &str) -> Result<(), String> {
        self.playback.play(name)?;
        self.elapsed = 0.;
        Ok(())
    }

    fn framerate(&self) -> f32 {
        self.playback.current_rate().copied().unwrap_or(0.)
    }

    fn set_framerate(&mut self, name: &str, fps: f32) -> Result<(), String> {
        if !fps.is_finite() || fps < 0. {
            return Err("framerate must be finite and nonnegative".into());
        }
        self.playback.set_rate(name, fps)
    }

    fn update(&mut self, dt: f32) {
        if !dt.is_finite() || dt < 0. || !self.playback.playing() {
            return;
        }
        let ticks = self.elapsed + f64::from(dt) * f64::from(self.framerate());
        if ticks < 1. {
            self.elapsed = ticks;
            return;
        }
        let steps = ticks.floor();
        self.elapsed = ticks - steps;
        let steps = if steps < 9007199254740992. {
            steps as u64
        } else {
            let len = self.playback.current_len();
            let remaining = len - self.playback.frame();
            remaining as u64 + ((steps - remaining as f64) % len as f64) as u64
        };
        if self.playback.advance(steps) {
            self.elapsed = 0.;
        }
    }
}

fn numbered_names(count: u32) -> FrameNames {
    let mut names = FrameNames::new();
    for i in 0..count {
        names.push(&i.to_string(), PLAIN).unwrap();
    }
    names
}

#[test]
fn compressed_sequences_and_active_mutations() {
    for sequence in [&[3, 4, 5][..], &[2, 2, 1], &[5, 4, 3], &[u32::MAX], &[0, 2, 4]] {
        let packed = FrameSequence::new(sequence);
        assert_eq!(packed.len(), sequence.len());
        for (i, &index) in sequence.iter().enumerate() {
            assert_eq!(packed.get(i), index);
        }
    }
    assert!(matches!(FrameSequence::new(&[3, 4, 5]), FrameSequence::Range { .. }));
    assert!(matches!(FrameSequence::new(&[3, 3, 5]), FrameSequence::Indices(_)));
    let atlas = numbered_names(6);
    let mut s = Animated::new(atlas.len());
    s.add_animation("a", &[2, 3, 4], 4., true).unwrap();
    s.play("a").unwrap();
    s.update(0.25);
    assert_eq!(s.playback.atlas_index(), 3);
    s.playback.set_looping("a", false).unwrap();
    s.update(1.);
    assert!(!s.playback.playing());
    assert_eq!(s.playback.frame(), 2);
    s.add_animation("a", &[1, 0], 8., true).unwrap();
    assert_eq!(s.framerate(), 8.);
    s.playback.resume();
    s.update(0.125);
    assert_eq!(s.playback.atlas_index(), 0);
    s.set_framerate("a", 0.).unwrap();
    s.update(2.);
    assert_eq!(s.playback.frame(), 1);
}

#[test]
fn prefix_sort_is_numeric_and_stable() {
    let mut f = FrameNames::new();
    for name in ["idle10.png", "idle2.png", "idle-1.png", "idlefoo.png", "idle01.png"] {
        f.push(name, PLAIN).unwrap();
    }
    let mut s = Animated::new(f.len());
    let order = prefix_order(&f, "idle");
    s.add_animation("idle", &order, 1., true).unwrap();
    s.play("idle").unwrap();
    for expected in [3, 2, 4, 1, 0, 3] {
        assert_eq!(s.playback.atlas_index(), expected);
        s.update(1.);
    }
}

/// What the game makes of a `SubTexture`: its name, whether it is empty,
/// and its packed rectangle.
fn frame_of(tag: &XmlTag) -> Result<(String, bool, [f32; 4]), String> {
    let mut rect = [0f32; 4];
    for (i, key) in ["x", "y", "width", "height"].iter().enumerate() {
        let text = tag.attribute(key).ok_or(format!("missing Sparrow attribute {key}"))?;
        let value: f32 = text.parse().map_err(|_| format!("invalid Sparrow number {key}"))?;
        if !value.is_finite() {
            return Err(format!("nonfinite Sparrow number {key}"));
        }
        rect[i] = value;
    }
    let name = tag.attribute("name").ok_or("missing Sparrow attribute name".to_string())?;
    Ok((name.to_string(), rect[2] == 0. || rect[3] == 0., rect))
}

fn atlas(xml: &str) -> Result<(FrameNames, Vec<[f32; 4]>), String> {
    let (_, entries) = parse_sparrow(xml, frame_of)?;
    let mut names = FrameNames::new();
    let mut rects = Vec::new();
    for (name, empty, rect) in entries {
        if names.is_duplicate(&name, empty) {
            continue;
        }
        names.push(&name, FrameFlags { empty, ..PLAIN })?;
        rects.push(rect);
    }
    Ok((names, rects))
}

#[test]
fn empty_names_do_not_hide_nonempty_duplicates() {
    let xml = "<TextureAtlas><SubTexture name='a' x='0' y='0' width='0' height='4'/><SubTexture name='a' x='1' y='2' width='3' height='4'/><SubTexture name='a' x='4' y='5' width='2' height='3'/></TextureAtlas>";
    let (f, rects) = atlas(xml).unwrap();
    assert_eq!(f.len(), 2);
    assert_eq!(f.find("a"), Some(1));
    assert_eq!(rects[1], [1., 2., 3., 4.]);
}

#[test]
fn malformed_xml_and_empty_atlas() {
    for xml in [
        "",
        "<TextureAtlas>",
        "<TextureAtlas></Wrong>",
        "<TextureAtlas/><TextureAtlas/>",
        "<TextureAtlas><SubTexture name='a' x='0' y='0' width='NaN' height='1'/></TextureAtlas>",
        "<!DOCTYPE TextureAtlas><TextureAtlas/>",
        "garbage<TextureAtlas/>",
    ] {
        assert!(atlas(xml).is_err(), "{xml}");
    }
    let (f, _) = atlas("<TextureAtlas/>").unwrap();
    assert_eq!(f.len(), 0);
    let mut s = Animated::new(f.len());
    s.update(1.);
    assert!(!s.playback.playing());
    assert_eq!(s.framerate(), 0.);
}

#[test]
fn manual_frames_playback_and_mutation() {
    let mut f = FrameNames::new();
    for i in [10, 2, 1] {
        f.push(&format!("idle{i}"), PLAIN).unwrap();
    }
    let mut s = Animated::new(f.len());
    let order = prefix_order(&f, "idle");
    s.add_animation("idle", &order, 4., true).unwrap();
    s.play("idle").unwrap();
    assert_eq!(s.playback.frame(), 0);
    assert_eq!(s.playback.animation(), Some("idle"));
    assert_eq!(s.framerate(), 4.);
    s.update(0.125);
    assert_eq!(s.playback.frame(), 0);
    s.update(0.125);
    assert_eq!(s.playback.frame(), 1);
    s.update(1000.);
    assert_eq!(s.playback.frame(), 2);
    s.playback.pause();
    s.update(4.);
    assert_eq!(s.playback.frame(), 2);
    s.playback.resume();
    s.update(0.25);
    assert_eq!(s.playback.frame(), 0);
    s.playback.set_frame(2).unwrap();
    s.playback.stop();
    s.elapsed = 0.;
    assert_eq!(s.playback.frame(), 0);
    assert!(!s.playback.playing());
    s.playback.rename("idle", "walk").unwrap();
    assert_eq!(s.playback.animation(), Some("walk"));
    s.playback.set_looping("walk", false).unwrap();
    s.playback.set_looping("walk", true).unwrap();
    assert!(s.playback.set_looping("missing", true).is_err());
    s.set_framerate("walk", 0.).unwrap();
    s.playback.resume();
    s.update(f32::MAX);
    assert_eq!(s.playback.frame(), 0);
    s.add_animation("once", &[0, 1, 2], 2., false).unwrap();
    s.play("once").unwrap();
    s.update(1.);
    assert_eq!(s.playback.frame(), 2);
    assert!(s.playback.playing());
    s.update(0.5);
    assert!(!s.playback.playing());
    assert_eq!(s.playback.frame(), 2);
    assert!(s.playback.set_frame(3).is_err());
    assert!(s.play("missing").is_err());
    assert!(s.add_animation("bad", &[99], 1., true).is_err());
    for bad in [f32::NAN, f32::INFINITY, -1.] {
        assert!(s.set_framerate("once", bad).is_err());
        s.update(bad);
        assert_eq!(s.playback.frame(), 2);
    }
    s.play("walk").unwrap();
    s.set_framerate("walk", f32::MAX).unwrap();
    s.update(f32::MAX);
    assert!(s.playback.frame() < 3);
}

#[test]
fn haxe_int_reads_a_numeric_prefix() {
    assert_eq!(haxe_int("42"), Some(42));
    assert_eq!(haxe_int("  -17abc"), Some(-17));
    assert_eq!(haxe_int("+8"), Some(8));
    assert_eq!(haxe_int("0x1F"), Some(31));
    assert_eq!(haxe_int("0Xff.png"), Some(255));
    assert_eq!(haxe_int("01"), Some(1));
    assert_eq!(haxe_int("foo"), None);
    assert_eq!(haxe_int(""), None);
    assert_eq!(haxe_int("-"), None);
    assert_eq!(haxe_int("0x"), None);
    assert_eq!(haxe_int("4294967295"), Some(-1));
    assert_eq!(haxe_int("-2147483648"), Some(i32::MIN));
}

#[test]
fn playback_errors_name_their_cause() {
    let mut p: Playback<f32> = Playback::new();
    assert_eq!(p.set_frame(0).unwrap_err(), "no animation selected");
    assert_eq!(p.play("x").unwrap_err(), "unknown animation: x");
    assert_eq!(p.add("x", &[], 3, 1., true).unwrap_err(), "invalid animation frames or framerate");
    assert_eq!(p.add("x", &[3], 3, 1., true).unwrap_err(), "invalid animation frames or framerate");
    assert_eq!(p.add("x", &[0, 2], 3, 1., true), Ok(false));
    assert_eq!(p.add("y", &[1], 3, 1., true), Ok(false));
    assert_eq!(p.rename("x", "y").unwrap_err(), "animation name already exists");
    assert_eq!(p.rename("z", "w").unwrap_err(), "unknown animation");
    assert_eq!(p.set_rate("z", 1.).unwrap_err(), "unknown animation");
    p.play("x").unwrap();
    assert_eq!(p.set_frame(2).unwrap_err(), "animation frame out of range");
    p.set_frame(1).unwrap();
    assert_eq!(p.atlas_index(), 2);
    assert_eq!(p.add("x", &[1, 1, 1], 3, 2., false), Ok(true));
    assert_eq!(p.frame(), 0);
    assert_eq!(p.current_rate(), Some(&2.));
    assert_eq!(p.current_len(), 3);
}

#[test]
fn advance_wraps_looping_clips_and_stops_others() {
    let mut p: Playback<u32> = Playback::new();
    p.add("loop", &[0, 1, 2, 3], 4, 0, true).unwrap();
    p.add("once", &[0, 1, 2, 3], 4, 0, false).unwrap();
    assert!(!p.advance(5));
    assert_eq!(p.frame(), 0);
    p.play("loop").unwrap();
    assert!(!p.advance(2));
    assert_eq!(p.frame(), 2);
    assert!(!p.advance(7));
    assert_eq!(p.frame(), 1);
    p.play("once").unwrap();
    assert!(!p.advance(3));
    assert!(p.advance(1));
    assert_eq!(p.frame(), 3);
    assert!(!p.playing());
}

#[test]
fn first_nonempty_name_wins() {
    let mut names = FrameNames::new();
    let empty = FrameFlags { empty: true, ..PLAIN };
    assert_eq!(names.push("a", empty), Ok(0));
    assert_eq!(names.find("a"), None);
    assert!(!names.is_duplicate("a", false));
    assert_eq!(names.push("a", PLAIN), Ok(1));
    assert_eq!(names.find("a"), Some(1));
    assert!(names.is_duplicate("a", false));
    assert!(!names.is_duplicate("a", true));
    assert_eq!(names.push("a", PLAIN), Ok(2));
    assert_eq!(names.find("a"), Some(1));
    assert_eq!(names.name(2), Some("a"));
    assert_eq!(names.name(3), None);
    assert_eq!(names.flags_of(0), empty);
}

#[test]
fn sparrow_structure_errors() {
    let err = |xml: &str| atlas(xml).err().unwrap();
    assert_eq!(err(""), "incomplete TextureAtlas");
    assert_eq!(err("<TextureAtlas>"), "incomplete TextureAtlas");
    assert_eq!(err("<TextureAtlas/><TextureAtlas/>"), "expected one TextureAtlas root");
    assert_eq!(err("<Other/>"), "expected one TextureAtlas root");
    assert_eq!(err("<!DOCTYPE TextureAtlas><TextureAtlas/>"), "DTD is not supported in Sparrow atlases");
    assert_eq!(err("garbage<TextureAtlas/>"), "text outside TextureAtlas");
    assert_eq!(
        err("<TextureAtlas><SubTexture x='0' y='0' width='1' height='1'/></TextureAtlas>"),
        "missing Sparrow attribute name"
    );
    let (image, entries) = parse_sparrow(
        "<?xml version='1.0'?>\n<TextureAtlas imagePath='bf.png'>\n <SubTexture name='n' x='1' y='2' width='3' height='4'/>\n <Nested><SubTexture name='ignored' x='0' y='0' width='1' height='1'/></Nested>\n</TextureAtlas>\n",
        frame_of,
    )
    .unwrap();
    assert_eq!(image, "bf.png");
    assert_eq!(entries.len(), 1);
    assert_eq!(entries[0].0, "n");
}

#[test]
fn overlong_names_are_refused() {
    let mut names = FrameNames::new();
    let long = "x".repeat(0x1000_0000);
    assert_eq!(names.push(&long, PLAIN).unwrap_err(), "atlas names exceed 4 GiB");
    assert_eq!(names.len(), 0);
}

fn tag(name: &str, attributes: &[(&str, &str)]) -> XmlTag {
    XmlTag {
        name: name.as_bytes().to_vec(),
        attributes: attributes.iter().map(|(k, v)| (k.as_bytes().to_vec(), v.to_string())).collect(),
    }
}

fn failure(step: SparrowStep) -> String {
    match step {
        SparrowStep::Fail(e) => e,
        _ => panic!("expected a failure"),
    }
}

#[test]
fn sparrow_steps_track_depth_and_the_root() {
    let mut s = SparrowState::new();
    assert!(matches!(s.step(&XmlEvent::Text(b" \n\t".to_vec())), SparrowStep::Continue));
    assert!(matches!(s.step(&XmlEvent::Start(tag("TextureAtlas", &[("imagePath", "a.png")]))), SparrowStep::Continue));
    assert_eq!((s.depth, s.closed, s.image.as_deref()), (1, false, Some("a.png")));
    assert!(matches!(s.step(&XmlEvent::Empty(tag("SubTexture", &[]))), SparrowStep::SubTexture));
    assert!(matches!(s.step(&XmlEvent::Start(tag("Group", &[]))), SparrowStep::Continue));
    assert!(matches!(s.step(&XmlEvent::Empty(tag("SubTexture", &[]))), SparrowStep::Continue));
    assert!(matches!(s.step(&XmlEvent::End), SparrowStep::Continue));
    assert!(matches!(s.step(&XmlEvent::Text(b"inside".to_vec())), SparrowStep::Continue));
    assert_eq!(failure(s.step(&XmlEvent::Eof)), "incomplete TextureAtlas");
    assert!(matches!(s.step(&XmlEvent::End), SparrowStep::Continue));
    assert!(s.closed);
    assert!(matches!(s.step(&XmlEvent::Other), SparrowStep::Continue));
    assert_eq!(failure(s.step(&XmlEvent::End)), "unexpected XML closing tag");
    assert_eq!(failure(s.step(&XmlEvent::Text(b"x".to_vec()))), "text outside TextureAtlas");
    assert_eq!(failure(s.step(&XmlEvent::Empty(tag("TextureAtlas", &[])))), "expected one TextureAtlas root");
    assert_eq!(failure(s.step(&XmlEvent::DocType)), "DTD is not supported in Sparrow atlases");
    match s.step(&XmlEvent::Eof) {
        SparrowStep::Done(image) => assert_eq!(image, "a.png"),
        _ => panic!("expected the atlas to be complete"),
    }
    let mut bare = SparrowState { depth: 0, closed: true, image: None };
    assert_eq!(failure(bare.step(&XmlEvent::Eof)), "missing TextureAtlas");
    let mut empty_root = SparrowState::new();
    assert!(matches!(empty_root.step(&XmlEvent::Empty(tag("TextureAtlas", &[]))), SparrowStep::Continue));
    assert_eq!(empty_root.image.as_deref(), Some(""));
    assert!(matches!(empty_root.step(&XmlEvent::Eof), SparrowStep::Done(_)));
}

#[test]
fn taking_events_collects_frames_until_the_root_closes() {
    let name_of = |t: &XmlTag| -> Result<String, String> {
        t.attribute("name").map(str::to_string).ok_or("missing Sparrow attribute name".to_string())
    };
    let mut state = SparrowState::new();
    let mut entries = Vec::new();
    let root = XmlEvent::Start(tag("TextureAtlas", &[("imagePath", "bf.png")]));
    assert_eq!(take_event(&mut state, &mut entries, &root, &name_of), None);
    let a = XmlEvent::Empty(tag("SubTexture", &[("name", "a")]));
    assert_eq!(take_event(&mut state, &mut entries, &a, &name_of), None);
    assert_eq!(entries, vec!["a".to_string()]);
    let unnamed = XmlEvent::Empty(tag("SubTexture", &[]));
    let mut copy = SparrowState { depth: state.depth, closed: state.closed, image: state.image.clone() };
    assert_eq!(
        take_event(&mut copy, &mut entries, &unnamed, &name_of),
        Some(Err("missing Sparrow attribute name".to_string()))
    );
    assert_eq!(entries.len(), 1);
    assert_eq!(take_event(&mut state, &mut entries, &XmlEvent::End, &name_of), None);
    assert_eq!(take_event(&mut state, &mut entries, &XmlEvent::Eof, &name_of), Some(Ok("bf.png".to_string())));
    assert_eq!(
        take_event(&mut state, &mut entries, &XmlEvent::DocType, &name_of),
        Some(Err("DTD is not supported in Sparrow atlases".to_string()))
    );
}

#[test]
fn sparrow_documents_give_their_image_path_and_frames() {
    let (image, entries) = parse_sparrow(
        "<TextureAtlas imagePath='a.png'><SubTexture name='f' x='1' y='2' width='3' height='4' frameX='-5' frameY='-6' frameWidth='10' frameHeight='12'/></TextureAtlas>",
        frame_of,
    )
    .unwrap();
    assert_eq!(image, "a.png");
    assert_eq!(entries, vec![("f".to_string(), false, [1., 2., 3., 4.])]);
    let (image, entries) = parse_sparrow(
        "<TextureAtlas><SubTexture name='r' x='0' y='0' width='2' height='3' rotated='true'/></TextureAtlas>",
        frame_of,
    )
    .unwrap();
    assert_eq!(image, "");
    assert_eq!(entries, vec![("r".to_string(), false, [0., 0., 2., 3.])]);
    let (image, entries) = parse_sparrow(
        "<TextureAtlas><SubTexture name='e' x='3' y='4' width='0' height='5' rotated='true' flipX='true'/></TextureAtlas>",
        frame_of,
    )
    .unwrap();
    assert_eq!(image, "");
    assert_eq!(entries, vec![("e".to_string(), true, [3., 4., 0., 5.])]);
    assert_eq!(parse_sparrow("<TextureAtlas></Wrong>", frame_of).err().map(|e| e.is_empty()), Some(false));
}
