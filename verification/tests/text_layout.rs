use limn::text::{
    get_line_rects, get_positioned_glyphs, get_text_height, get_text_size, line_infos, lines,
    Align, Font, Rect, Wrap,
};

fn mono_font(advance: i64) -> Font {
    Font { advances: Vec::new(), default_advance: advance, kerning: Vec::new() }
}

fn chars(s: &str) -> Vec<char> {
    s.chars().collect()
}

#[test]
fn one_line_when_text_fits() {
    let font = mono_font(10);
    let text = chars("hello");
    let rect = Rect { left: 100, top: 50, width: 200, height: 30 };
    for align in [Align::Start, Align::Middle, Align::End] {
        let rects = get_line_rects(&text, rect, &font, Wrap::Whitespace, align, 20);
        assert_eq!(rects.len(), 1);
        assert_eq!(rects[0].width, 50);
        assert_eq!(rects[0].top, 50);
        assert_eq!(rects[0].height, 20);
    }
    let start = get_line_rects(&text, rect, &font, Wrap::Whitespace, Align::Start, 20);
    assert_eq!(start[0].left, 100);
    let mid = get_line_rects(&text, rect, &font, Wrap::Whitespace, Align::Middle, 20);
    assert_eq!(mid[0].left, 100 + (200 - 50) / 2);
    let end = get_line_rects(&text, rect, &font, Wrap::Whitespace, Align::End, 20);
    assert_eq!(end[0].left, 100 + 200 - 50);
}

#[test]
fn whitespace_wrap_breaks_at_spaces() {
    let font = mono_font(10);
    let text = chars("aaa bbb ccc");
    let infos = line_infos(&text, &font, Wrap::Whitespace, 60);
    assert_eq!(infos.len(), 3);
    assert_eq!((infos[0].start, infos[0].end), (0, 4));
    assert_eq!((infos[1].start, infos[1].end), (4, 8));
    assert_eq!((infos[2].start, infos[2].end), (8, 11));
    // No line breaks inside a word: each line ends at a space or the end.
    for li in &infos {
        assert!(li.end == text.len() || text[li.end - 1] == ' ');
    }
}

#[test]
fn single_long_word_falls_back_to_character_wrap() {
    let font = mono_font(10);
    let text = chars("aaaaaa");
    let infos = line_infos(&text, &font, Wrap::Whitespace, 30);
    assert_eq!(infos.len(), 2);
    assert_eq!((infos[0].start, infos[0].end), (0, 3));
    assert_eq!((infos[1].start, infos[1].end), (3, 6));
}

#[test]
fn character_wrap_takes_greedy_prefixes() {
    let font = mono_font(10);
    let text = chars("abcdefg");
    let infos = line_infos(&text, &font, Wrap::Character, 25);
    assert_eq!(infos.len(), 4);
    assert_eq!((infos[0].start, infos[0].end), (0, 2));
    assert_eq!((infos[3].start, infos[3].end), (6, 7));
}

#[test]
fn text_size_and_height() {
    let font = mono_font(10);
    let text = chars("hello");
    let (w, h) = get_text_size(&text, &font, 20, Wrap::NoWrap);
    assert_eq!(w, 50);
    assert_eq!(h, 20);
    let h2 = get_text_height(&chars("aaa bbb ccc"), &font, 20, Wrap::Whitespace, 60);
    assert_eq!(h2, 60);
    let (w0, h0) = get_text_size(&chars(""), &font, 20, Wrap::NoWrap);
    assert_eq!((w0, h0), (0, 0));
}

#[test]
fn glyphs_advance_and_kern() {
    let font = Font {
        advances: vec![('a', 10), ('b', 12)],
        default_advance: 7,
        kerning: vec![('a', 'b', -2)],
    };
    let text = chars("ab!");
    let rect = Rect { left: 5, top: 0, width: 1000, height: 30 };
    let glyphs = get_positioned_glyphs(&text, rect, &font, 16, Wrap::NoWrap, Align::Start, 20);
    assert_eq!(glyphs.len(), 3);
    assert_eq!(glyphs[0].ch, 'a');
    assert_eq!(glyphs[0].x, 5);
    assert_eq!(glyphs[0].y, 16);
    // 'b' follows 'a' by a's advance plus the a-b kerning.
    assert_eq!(glyphs[1].x, 5 + 10 - 2);
    // '!' has no kerning pair and follows by b's advance.
    assert_eq!(glyphs[2].x, 5 + 10 - 2 + 12);
}

#[test]
fn glyph_rows_reset_per_line() {
    let font = mono_font(10);
    let text = chars("aa aa");
    let rect = Rect { left: 0, top: 0, width: 30, height: 60 };
    let glyphs = get_positioned_glyphs(&text, rect, &font, 10, Wrap::Whitespace, Align::Start, 20);
    assert_eq!(glyphs.len(), 5);
    // Second line starts back at the left edge, one line height down.
    assert_eq!(glyphs[3].x, 0);
    assert_eq!(glyphs[3].y, 20 + 10);
    assert_eq!(glyphs[4].x, 10);
}

#[test]
fn explicit_newlines_break_lines() {
    // A newline has zero advance so it adds no width to its line.
    let font = Font { advances: vec![('\n', 0)], default_advance: 10, kerning: Vec::new() };
    let text = chars("ab\ncd");
    let infos = line_infos(&text, &font, Wrap::NoWrap, 1000);
    assert_eq!(infos.len(), 2);
    assert_eq!((infos[0].start, infos[0].end), (0, 3));
    assert_eq!((infos[1].start, infos[1].end), (3, 5));
    let (w, h) = get_text_size(&text, &font, 20, Wrap::NoWrap);
    assert_eq!(w, 20);
    assert_eq!(h, 40);
    // Newlines break under the wrapping modes too.
    let infos = line_infos(&text, &font, Wrap::Whitespace, 1000);
    assert_eq!(infos.len(), 2);
    let infos = line_infos(&text, &font, Wrap::Character, 1000);
    assert_eq!(infos.len(), 2);
}

#[test]
fn lines_yields_each_range() {
    let text = chars("hello world");
    let mut it = lines(&text, vec![(0, 5), (6, 11)]);
    assert_eq!(it.next(), Some(chars("hello")));
    assert_eq!(it.next(), Some(chars("world")));
    assert_eq!(it.next(), None);
}
