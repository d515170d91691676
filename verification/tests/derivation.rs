use rc_str::RcStr;

const STR: &str = "hello world";

#[test]
fn every_piece_of_a_root_view_is_derivable() {
    let text = "a é 日 🦀 z";
    let root = RcStr::new(text);
    let own = root.as_str();
    for from in 0..=text.len() {
        for to in from..=text.len() {
            if text.is_char_boundary(from) && text.is_char_boundary(to) {
                let piece = root.sliced(&own[from..to]).unwrap();
                assert_eq!(piece.as_str(), &text[from..to]);
                assert_eq!(piece.as_bytes(), &text.as_bytes()[from..to]);
                assert_eq!(piece.as_str().as_ptr(), own[from..to].as_ptr());
            }
        }
    }
}

#[test]
fn foreign_literal_is_rejected() {
    let root = RcStr::new(STR);
    assert!(root.sliced("foo").is_none());
    assert!(RcStr::from_slice(&root, "foo").is_none());
}

#[test]
fn equal_text_in_another_buffer_is_rejected() {
    let root = RcStr::new(STR);
    let other = String::from(STR);
    assert!(root.sliced(&other).is_none());
    assert!(root.sliced(&other[3..6]).is_none());
    let second = RcStr::new(STR);
    assert!(root.sliced(second.as_str()).is_none());
    assert!(second.sliced(&root.as_str()[2..4]).is_none());
}

#[test]
fn full_range_is_derivable() {
    let root = RcStr::new(STR);
    let own = root.as_str();
    let whole = root.sliced(&own[0..11]).unwrap();
    assert_eq!(whole.as_str(), "hello world");
    assert_eq!(whole.len(), 11);
}

#[test]
fn empty_piece_at_the_end_is_derivable() {
    let root = RcStr::new(STR);
    let own = root.as_str();
    let end = root.sliced(&own[11..11]).unwrap();
    assert_eq!(end.as_str(), "");
    assert_eq!(end.len(), 0);
    assert_eq!(end.as_str().as_ptr() as usize, own.as_ptr() as usize + 11);
}

#[test]
fn empty_piece_at_the_start_is_derivable() {
    let root = RcStr::new(STR);
    let own = root.as_str();
    let start = root.sliced(&own[0..0]).unwrap();
    assert_eq!(start.as_str(), "");
    assert_eq!(start.len(), 0);
    assert_eq!(start.as_str().as_ptr(), own.as_ptr());
}

#[test]
fn pieces_of_an_empty_root_are_derivable() {
    let root = RcStr::new("");
    let piece = root.sliced(root.as_str()).unwrap();
    assert_eq!(piece.as_str(), "");
    assert_eq!(piece.len(), 0);
}

#[test]
fn chain_of_three_derivations() {
    let root = RcStr::new(STR);
    let first = root.sliced(&root.as_str()[1..10]).unwrap();
    assert_eq!(first.as_str(), "ello worl");
    let second = first.sliced(&first.as_str()[1..7]).unwrap();
    assert_eq!(second.as_str(), "llo wo");
    let third = second.sliced(&second.as_str()[1..5]).unwrap();
    assert_eq!(third.as_str(), "lo w");
    assert_eq!(third.len(), 4);
    assert_eq!(third.as_str().as_ptr() as usize, root.as_str().as_ptr() as usize + 3);
}

#[test]
fn derived_view_derives_from_the_whole_buffer() {
    let root = RcStr::new(STR);
    let narrow = root.sliced(&root.as_str()[3..7]).unwrap();
    assert_eq!(narrow.as_str(), "lo w");
    // Text of the buffer outside the narrow view is still derivable from it.
    let wide = narrow.sliced(&root.as_str()[0..11]).unwrap();
    assert_eq!(wide.as_str(), "hello world");
    let before = narrow.sliced(&root.as_str()[0..2]).unwrap();
    assert_eq!(before.as_str(), "he");
    let after = narrow.sliced(&root.as_str()[8..11]).unwrap();
    assert_eq!(after.as_str(), "rld");
    // And text from elsewhere is still not.
    assert!(narrow.sliced("lo w").is_none());
}

#[test]
fn from_slice_derives_like_sliced() {
    let root = RcStr::new(STR);
    let piece = RcStr::from_slice(&root, &root.as_str()[6..]).unwrap();
    assert_eq!(piece.as_str(), "world");
    let inner = RcStr::from_slice(&piece, &piece.as_str()[1..3]).unwrap();
    assert_eq!(inner.as_str(), "or");
}

#[test]
fn slice_with_derives_what_the_function_picks() {
    let root = RcStr::new("key = value");
    let key = root.slice_with(|s| &s[..3]).unwrap();
    assert_eq!(key.as_str(), "key");
    let value = root.slice_with(|s| s.split('=').nth(1).unwrap().trim()).unwrap();
    assert_eq!(value.as_str(), "value");
    let whole = root.slice_with(|s| s).unwrap();
    assert_eq!(whole.as_str(), "key = value");
    let nested = value.slice_with(|s| &s[1..4]).unwrap();
    assert_eq!(nested.as_str(), "alu");
}

#[test]
fn slice_with_rejects_text_from_elsewhere() {
    let root = RcStr::new("key = value");
    assert!(root.slice_with(|_| "value").is_none());
}

#[test]
fn window_counts_from_the_start_of_the_buffer() {
    let root = RcStr::new(STR);
    let world = root.window(6, 5).unwrap();
    assert_eq!(world.as_str(), "world");
    let hello = world.window(0, 5).unwrap();
    assert_eq!(hello.as_str(), "hello");
    let whole = hello.window(0, 11).unwrap();
    assert_eq!(whole.as_str(), STR);
    let end = whole.window(11, 0).unwrap();
    assert_eq!(end.as_str(), "");
}

#[test]
fn window_past_the_end_is_rejected() {
    let root = RcStr::new(STR);
    assert!(root.window(0, 12).is_none());
    assert!(root.window(11, 1).is_none());
    assert!(root.window(12, 0).is_none());
    assert!(root.window(6, 6).is_none());
    assert!(root.window(usize::MAX, 0).is_none());
    assert!(root.window(0, usize::MAX).is_none());
    assert!(root.window(usize::MAX, usize::MAX).is_none());
    assert!(root.window(6, usize::MAX - 5).is_none());
}

#[test]
fn window_cut_inside_a_character_is_rejected() {
    // 'é' takes the bytes 1 and 2, '日' the bytes 4, 5 and 6.
    let root = RcStr::new("hé 日!");
    assert!(root.window(2, 2).is_none());
    assert!(root.window(2, 1).is_none());
    assert!(root.window(0, 2).is_none());
    assert!(root.window(4, 1).is_none());
    assert!(root.window(5, 2).is_none());
    assert!(root.window(6, 2).is_none());
    assert_eq!(root.window(1, 2).unwrap().as_str(), "é");
    assert_eq!(root.window(4, 3).unwrap().as_str(), "日");
    assert_eq!(root.window(3, 5).unwrap().as_str(), " 日!");
}

#[test]
fn empty_window_may_lie_anywhere_in_the_buffer() {
    let text = "hé 日!";
    let root = RcStr::new(text);
    let base = root.as_str().as_ptr() as usize;
    for start in 0..=text.len() {
        let empty = root.window(start, 0).unwrap();
        assert_eq!(empty.len(), 0);
        assert_eq!(empty.as_str(), "");
        assert_eq!(empty.as_bytes(), b"");
        assert_eq!(empty.as_str().as_ptr() as usize, base + start);
        assert_eq!(empty.as_bytes().as_ptr() as usize, base + start);
    }
    assert!(root.window(text.len() + 1, 0).is_none());
}

#[test]
fn empty_text_inside_a_character_is_derivable() {
    // 'é' takes the bytes 1 and 2: the address of byte 2 is inside it.
    let root = RcStr::new("hé!");
    let base = root.as_str().as_ptr() as usize;
    let inside = std::str::from_utf8(&root.as_bytes()[2..2]).unwrap();
    assert_eq!(inside.as_ptr() as usize, base + 2);
    let empty = root.sliced(inside).unwrap();
    assert_eq!(empty.len(), 0);
    assert_eq!(empty.as_str(), "");
    assert_eq!(empty.as_bytes(), b"");
    assert_eq!(empty.as_str().as_ptr() as usize, base + 2);
    // The empty view is a view like any other.
    assert_eq!(empty.clone().len(), 0);
    assert_eq!(empty.sliced(empty.as_str()).unwrap().len(), 0);
    assert_eq!(empty.sliced(root.as_str()).unwrap().as_str(), "hé!");
    assert_eq!(empty.slice_with(|s| s).unwrap().as_str(), "");
    assert_eq!(RcStr::from_slice(&root, empty.as_str()).unwrap().len(), 0);
}

#[test]
fn empty_text_at_every_address_of_the_buffer_is_derivable() {
    let text = "a é 日 🦀 z";
    let root = RcStr::new(text);
    let base = root.as_str().as_ptr() as usize;
    for at in 0..=text.len() {
        let candidate = std::str::from_utf8(&root.as_bytes()[at..at]).unwrap();
        let empty = root.sliced(candidate).unwrap();
        assert_eq!(empty.len(), 0);
        assert_eq!(empty.as_str().as_ptr() as usize, base + at);
    }
}

#[test]
fn sliced_at_finds_text_at_its_address() {
    let root = RcStr::new(STR);
    let piece = root.sliced_at(1000, 1003, "lo w").unwrap();
    assert_eq!(piece.as_str(), "lo w");
    assert_eq!(piece.as_str().as_ptr() as usize, root.as_str().as_ptr() as usize + 3);
    assert_eq!(root.sliced_at(1000, 1000, STR).unwrap().as_str(), STR);
    assert_eq!(root.sliced_at(1000, 1000, "").unwrap().len(), 0);
    assert_eq!(root.sliced_at(1000, 1006, "world").unwrap().as_str(), "world");
}

#[test]
fn sliced_at_accepts_empty_text_one_past_the_end() {
    let root = RcStr::new(STR);
    let end = root.sliced_at(1000, 1011, "").unwrap();
    assert_eq!(end.as_str(), "");
    assert_eq!(end.as_str().as_ptr() as usize, root.as_str().as_ptr() as usize + 11);
}

#[test]
fn sliced_at_rejects_addresses_outside_the_buffer() {
    let root = RcStr::new(STR);
    assert!(root.sliced_at(1000, 999, "h").is_none());
    assert!(root.sliced_at(1000, 999, "").is_none());
    assert!(root.sliced_at(1000, 1012, "").is_none());
    assert!(root.sliced_at(1000, 0, STR).is_none());
    assert!(root.sliced_at(1000, usize::MAX, "").is_none());
}

#[test]
fn sliced_at_rejects_text_that_runs_past_the_end() {
    let root = RcStr::new(STR);
    assert!(root.sliced_at(1000, 1011, "x").is_none());
    assert!(root.sliced_at(1000, 1006, "worlds").is_none());
    assert!(root.sliced_at(1000, 1000, "hello world!").is_none());
}

#[test]
fn sliced_at_rejects_text_that_is_not_there() {
    let root = RcStr::new(STR);
    assert!(root.sliced_at(1000, 1003, "foo").is_none());
    assert!(root.sliced_at(1000, 1004, "lo w").is_none());
    assert!(root.sliced_at(1000, 1000, "Hello").is_none());
}

#[test]
fn sliced_at_accepts_empty_text_inside_a_character() {
    // 'é' takes the bytes 1 and 2.
    let root = RcStr::new("hé");
    let base = root.as_str().as_ptr() as usize;
    for at in 0..=3 {
        let empty = root.sliced_at(1000, 1000 + at, "").unwrap();
        assert_eq!(empty.len(), 0);
        assert_eq!(empty.as_str(), "");
        assert_eq!(empty.as_str().as_ptr() as usize, base + at);
    }
    assert!(root.sliced_at(1000, 1004, "").is_none());
    assert!(root.sliced_at(1000, 999, "").is_none());
}

#[test]
fn sliced_at_rejects_text_that_is_not_there_inside_a_character() {
    let root = RcStr::new("hé");
    assert!(root.sliced_at(1000, 1002, "é").is_none());
    assert!(root.sliced_at(1000, 1002, "x").is_none());
    assert_eq!(root.sliced_at(1000, 1001, "é").unwrap().as_str(), "é");
}

#[test]
fn sliced_at_works_at_the_top_of_the_address_space() {
    let root = RcStr::new(STR);
    let piece = root.sliced_at(usize::MAX - 5, usize::MAX, " world").unwrap();
    assert_eq!(piece.as_str(), " world");
    assert!(root.sliced_at(usize::MAX - 5, usize::MAX - 6, "o").is_none());
}

#[test]
fn sliced_at_validates_against_the_whole_buffer() {
    let root = RcStr::new(STR);
    let narrow = root.window(3, 4).unwrap();
    assert_eq!(narrow.sliced_at(50, 50, "hello").unwrap().as_str(), "hello");
    assert_eq!(narrow.sliced_at(50, 56, "world").unwrap().as_str(), "world");
}
