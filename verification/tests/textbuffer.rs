use kbchatbox::textbuffer::TextBuffer;

#[test]
fn test_textbuffer_long() {
    let w = 100;
    let h = 10;
    let mut text_buf = TextBuffer::new(w, h);
    text_buf.append("Conversation start.");
    text_buf.append(" Lorem ipsum dolor sit amet, consectetur adipiscing elit. Curabitur elementum quam quis felis facilisis, a gravida ex posuere. Nunc rutrum erat sed augue volutpat, vel rutrum metus cursus. Vestibulum rutrum lobortis ante, eu placerat lectus rutrum vitae. Praesent ut orci ut lectus pulvinar rutrum. Ut ullamcorper accumsan nunc, ut venenatis mi lacinia non. Aenean iaculis purus mauris, eu ornare ante cursus et. Phasellus eu mauris suscipit, vulputate justo non, consequat erat. Cras non quam id massa mollis efficitur. Suspendisse potenti. In condimentum dignissim nisi, sit amet lobortis dolor tempus ut. Curabitur id aliquet risus, sit amet sodales quam. Orci varius natoque penatibus et magnis dis parturient montes, nascetur ridiculus mus. Sed venenatis ac felis et vulputate.");
    text_buf.append("Sed a lacinia mi. Mauris id felis non felis aliquet finibus. Etiam efficitur dui non sagittis elementum. Curabitur viverra non quam vel tincidunt. Nullam eleifend, sem sit amet tincidunt rhoncus, enim nulla condimentum dui, eu pulvinar diam risus at urna. Vivamus sollicitudin pharetra elit, ut interdum est accumsan at. Quisque eget nisl pellentesque, condimentum ipsum nec, condimentum dolor. In hac habitasse platea dictumst.");
    let lines = text_buf.get_newest();
    assert_eq!(lines.len(), h);
    for line in lines {
        assert_eq!(line.len() <= 100, true);
    }

    let formatted = text_buf.get_newest_formatted();
    assert_eq!(formatted.len() <= w * h, true);
}

#[test]
fn test_textbuffer_order() {
    let mut text_buf = TextBuffer::new(100, 5);
    for i in 0..20 {
        text_buf.append(&i.to_string());
    }

    let newest = text_buf.get_newest();
    let mut it = newest.iter();
    assert_eq!(it.next().unwrap(), "15");
    assert_eq!(it.next().unwrap(), "16");
    assert_eq!(it.next().unwrap(), "17");
    assert_eq!(it.next().unwrap(), "18");
    assert_eq!(it.next().unwrap(), "19");
    assert_eq!(None, it.next());
}

#[test]
fn test_textbuffer_spill_over() {
    // Checks that TextBuffer does not hold on to old lines that can never
    // be shown again.
    let h = 10;
    let mut text_buf = TextBuffer::new(100, h);
    assert_eq!(text_buf.get_raw_buffer_capacity(), 0);
    for i in 0..3 {
        text_buf.append(&i.to_string());
    }

    assert_eq!(text_buf.get_raw_buffer_capacity(), 3);

    for i in 0..50 {
        text_buf.append(&i.to_string());
    }

    assert_eq!(text_buf.get_raw_buffer_capacity(), h);
}

#[test]
fn test_textbuffer_wrap_exact_width() {
    // A line exactly at the width is kept whole; one char over is wrapped.
    let mut text_buf = TextBuffer::new(4, 10);
    text_buf.append("abcd");
    text_buf.append("abcde");
    let newest = text_buf.get_newest();
    assert_eq!(newest, vec!["abcd".to_string(), "abcd".to_string(), "e".to_string()]);
    assert_eq!(text_buf.get_newest_formatted(), "abcd\nabcd\ne");
}

#[test]
fn test_textbuffer_clear() {
    let mut text_buf = TextBuffer::new(10, 3);
    text_buf.append("one");
    text_buf.append("two");
    text_buf.clear();
    assert_eq!(text_buf.get_raw_buffer_capacity(), 0);
    assert_eq!(text_buf.get_newest_formatted(), "");
}

#[test]
fn test_textbuffer_split_into_sublines() {
    let text_buf = TextBuffer::new(3, 3);
    let parts = text_buf.split_into_sublines(&"abcdefgh".to_string(), 3);
    assert_eq!(parts, vec!["abc".to_string(), "def".to_string(), "gh".to_string()]);
    let none = text_buf.split_into_sublines(&"abc".to_string(), 0);
    assert_eq!(none.len(), 0);
}

#[test]
fn test_textbuffer_newest_fills_partial_wrap() {
    // When only part of a wrapped line fits, the newest chunks win.
    let mut text_buf = TextBuffer::new(2, 3);
    text_buf.append("zz");
    text_buf.append("abcdefgh");
    // "abcdefgh" wraps to ab|cd|ef|gh; only 3 rows fit, newest last.
    let newest = text_buf.get_newest();
    assert_eq!(newest, vec!["cd".to_string(), "ef".to_string(), "gh".to_string()]);
}

#[test]
fn test_textbuffer_zero_height_keeps_nothing() {
    let mut text_buf = TextBuffer::new(10, 0);
    text_buf.append("line");
    assert_eq!(text_buf.get_raw_buffer_capacity(), 0);
    assert_eq!(text_buf.get_newest().len(), 0);
}

#[test]
fn test_textbuffer_zero_width_shows_nothing() {
    // Every line is at least as long as a zero width, and wrapping to zero
    // produces no chunks at all.
    let mut text_buf = TextBuffer::new(0, 5);
    text_buf.append("line");
    assert_eq!(text_buf.get_raw_buffer_capacity(), 1);
    assert_eq!(text_buf.get_newest().len(), 0);
    assert_eq!(text_buf.get_newest_formatted(), "");
}
