//! What is captured, and for how long.

use vstd::prelude::*;
use vstd::string::*;

verus! {

/// One captured frame: its dimensions and its tightly packed RGBA pixels.
pub struct CapturedFrame {
    pub width: u32,
    pub height: u32,
    pub rgba: Vec<u8>,
}

/// A window that can be captured.
#[derive(Debug)]
pub struct CapturableWindow {
    pub title: String,
    pub process_name: String,
    pub width: u32,
    pub height: u32,
}

/// What a [`CapturableWindow`] says.
pub struct CapturableWindowView {
    pub title: Seq<char>,
    pub process_name: Seq<char>,
    pub width: u32,
    pub height: u32,
}

impl View for CapturableWindow {
    type V = CapturableWindowView;

    open spec fn view(&self) -> CapturableWindowView {
        CapturableWindowView {
            title: self.title@,
            process_name: self.process_name@,
            width: self.width,
            height: self.height,
        }
    }
}

/// What the system says of one open window. What it could not say is `None`.
pub struct WindowInfo {
    /// Whether the window can be captured at all.
    pub valid: bool,
    pub title: Option<String>,
    pub process_name: Option<String>,
    pub width: Option<i32>,
    pub height: Option<i32>,
}

/// Whether a character is white space, by the property of that name in
/// Unicode.
pub open spec fn is_white_space(c: char) -> bool {
    let n = c as int;
    ||| 0x9 <= n <= 0xd
    ||| n == 0x20
    ||| n == 0x85
    ||| n == 0xa0
    ||| n == 0x1680
    ||| 0x2000 <= n <= 0x200a
    ||| 0x2028 <= n <= 0x2029
    ||| n == 0x202f
    ||| n == 0x205f
    ||| n == 0x3000
}

/// Whether a text is empty but for white space.
pub open spec fn is_blank(text: Seq<char>) -> bool {
    forall|i: int| 0 <= i < text.len() ==> is_white_space(#[trigger] text[i])
}

/// Whether a text is empty but for white space.
pub fn blank(text: &str) -> (r: bool)
    ensures
        r == is_blank(text@),
{
    let len: usize = text.unicode_len();
    let mut i: usize = 0;
    while i < len
        invariant
            len == text@.len(),
            i <= len,
            forall|j: int| 0 <= j < i ==> is_white_space(#[trigger] text@[j]),
        decreases len - i,
    {
        let n: u32 = text.get_char(i) as u32;
        let white = (0x9 <= n && n <= 0xd) || n == 0x20 || n == 0x85 || n == 0xa0 || n == 0x1680
            || (0x2000 <= n && n <= 0x200a) || n == 0x2028 || n == 0x2029 || n == 0x202f || n
            == 0x205f || n == 0x3000;
        if !white {
            assert(!is_white_space(text@[i as int]));
            return false;
        }
        i = i + 1;
    }
    true
}

/// White space is these characters and no others.
pub proof fn law_white_space_is_what_unicode_says(c: char)
    ensures
        is_white_space(c) <==> seq![
            '\t',
            '\n',
            '\u{b}',
            '\u{c}',
            '\r',
            ' ',
            '\u{85}',
            '\u{a0}',
            '\u{1680}',
            '\u{2000}',
            '\u{2001}',
            '\u{2002}',
            '\u{2003}',
            '\u{2004}',
            '\u{2005}',
            '\u{2006}',
            '\u{2007}',
            '\u{2008}',
            '\u{2009}',
            '\u{200a}',
            '\u{2028}',
            '\u{2029}',
            '\u{202f}',
            '\u{205f}',
            '\u{3000}',
        ].contains(c),
{
    let all = seq![
        '\t',
        '\n',
        '\u{b}',
        '\u{c}',
        '\r',
        ' ',
        '\u{85}',
        '\u{a0}',
        '\u{1680}',
        '\u{2000}',
        '\u{2001}',
        '\u{2002}',
        '\u{2003}',
        '\u{2004}',
        '\u{2005}',
        '\u{2006}',
        '\u{2007}',
        '\u{2008}',
        '\u{2009}',
        '\u{200a}',
        '\u{2028}',
        '\u{2029}',
        '\u{202f}',
        '\u{205f}',
        '\u{3000}',
    ];
    if is_white_space(c) {
        let n = c as int;
        let at: int = if n <= 0xd {
            n - 0x9
        } else if n == 0x20 {
            5
        } else if n == 0x85 {
            6
        } else if n == 0xa0 {
            7
        } else if n == 0x1680 {
            8
        } else if n <= 0x200a {
            9 + (n - 0x2000)
        } else if n == 0x2028 {
            20
        } else if n == 0x2029 {
            21
        } else if n == 0x202f {
            22
        } else if n == 0x205f {
            23
        } else {
            24
        };
        assert(all[at] == c);
    }
}

/// A text is blank if and only if it has no character but white space: one
/// other, anywhere in it, is enough.
pub proof fn law_one_character_makes_a_text(before: Seq<char>, c: char, after: Seq<char>)
    ensures
        is_blank(Seq::empty()),
        is_blank(before + seq![c] + after) <==> is_blank(before) && is_white_space(c) && is_blank(
            after,
        ),
{
    let whole = before + seq![c] + after;
    if is_blank(whole) {
        assert forall|i: int| 0 <= i < before.len() implies is_white_space(#[trigger] before[i]) by {
            assert(whole[i] == before[i]);
        }
        assert(is_white_space(whole[before.len() as int]));
        assert forall|i: int| 0 <= i < after.len() implies is_white_space(#[trigger] after[i]) by {
            assert(whole[before.len() + 1 + i] == after[i]);
        }
    }
}

/// The characters of an optional text, none where it is absent.
pub open spec fn text_of(text: Option<String>) -> Seq<char> {
    match text {
        Some(t) => t@,
        None => Seq::empty(),
    }
}

/// A length that the system gave: 0 where it gave none or a negative one.
pub open spec fn length_of(length: Option<i32>) -> u32 {
    match length {
        Some(n) => if n > 0 {
            n as u32
        } else {
            0
        },
        None => 0,
    }
}

/// Whether a window is offered: it can be captured and has a title.
pub open spec fn is_offered(window: WindowInfo) -> bool {
    window.valid && !is_blank(text_of(window.title))
}

/// How an open window is offered.
pub open spec fn offered(window: WindowInfo) -> CapturableWindowView {
    CapturableWindowView {
        title: text_of(window.title),
        process_name: text_of(window.process_name),
        width: length_of(window.width),
        height: length_of(window.height),
    }
}

/// The windows that are offered out of these, in order.
pub open spec fn offered_windows(windows: Seq<WindowInfo>) -> Seq<CapturableWindowView>
    decreases windows.len(),
{
    if windows.len() == 0 {
        Seq::empty()
    } else {
        let earlier = offered_windows(windows.drop_last());
        if is_offered(windows.last()) {
            earlier.push(offered(windows.last()))
        } else {
            earlier
        }
    }
}

/// The views of a list of windows.
pub open spec fn window_views(windows: Seq<CapturableWindow>) -> Seq<CapturableWindowView> {
    Seq::new(windows.len(), |i: int| windows[i]@)
}

/// The windows of a list are looked at one by one, each as it is.
pub proof fn law_a_list_is_its_windows(windows: Seq<CapturableWindow>)
    ensures
        window_views(windows).len() == windows.len(),
        forall|i: int|
            0 <= i < windows.len() ==> #[trigger] window_views(windows)[i] == (
            CapturableWindowView {
                title: windows[i].title@,
                process_name: windows[i].process_name@,
                width: windows[i].width,
                height: windows[i].height,
            }),
{
}

fn text_or_empty(text: &Option<String>) -> (r: String)
    ensures
        r@ == text_of(*text),
{
    match text {
        Some(t) => t.clone(),
        None => String::new(),
    }
}

fn length_or_zero(length: Option<i32>) -> (r: u32)
    ensures
        r == length_of(length),
{
    match length {
        Some(n) => if n > 0 {
            n as u32
        } else {
            0
        },
        None => 0,
    }
}

/// The windows that can be offered for capture, out of all that are open.
pub fn list_capturable_windows(windows: &Vec<WindowInfo>) -> (result: Vec<CapturableWindow>)
    ensures
        window_views(result@) == offered_windows(windows@),
{
    let mut result: Vec<CapturableWindow> = Vec::new();
    let mut i: usize = 0;
    while i < windows.len()
        invariant
            i <= windows@.len(),
            window_views(result@) == offered_windows(windows@.take(i as int)),
        decreases windows@.len() - i,
    {
        let ghost before = result@;
        let window = &windows[i];
        let title = text_or_empty(&window.title);
        assert(windows@.take(i + 1).drop_last() =~= windows@.take(i as int));
        assert(windows@.take(i + 1).last() == windows@[i as int]);
        if window.valid && !blank(title.as_str()) {
            result.push(
                CapturableWindow {
                    title,
                    process_name: text_or_empty(&window.process_name),
                    width: length_or_zero(window.width),
                    height: length_or_zero(window.height),
                },
            );
            assert(window_views(result@) =~= window_views(before).push(offered(*window)));
        }
        i = i + 1;
    }
    assert(windows@.take(i as int) =~= windows@);
    result
}

/// Every window that is offered has a title to pick it by.
pub proof fn law_offered_windows_have_a_title(windows: Seq<WindowInfo>, i: int)
    requires
        0 <= i < offered_windows(windows).len(),
    ensures
        !is_blank(offered_windows(windows)[i].title),
    decreases windows.len(),
{
    let earlier = offered_windows(windows.drop_last());
    if i < earlier.len() {
        law_offered_windows_have_a_title(windows.drop_last(), i);
    }
}

/// A window that can be captured and has a title that is not blank is offered:
/// under its title, with the name of its program where there is one, and with
/// its size where that is known and not negative.
pub proof fn law_a_titled_window_is_offered(window: WindowInfo)
    requires
        window.valid,
        window.title matches Some(title) && !is_blank(title@),
    ensures
        ({
            let shown = offered_windows(seq![window]);
            &&& shown.len() == 1
            &&& shown[0].title == window.title->0@
            &&& shown[0].process_name == (if window.process_name is Some {
                window.process_name->0@
            } else {
                Seq::<char>::empty()
            })
            &&& window.width is Some && window.width->0 >= 0 ==> shown[0].width == window.width->0
            &&& window.width is None || window.width->0 < 0 ==> shown[0].width == 0
            &&& window.height is Some && window.height->0 >= 0 ==> shown[0].height
                == window.height->0
            &&& window.height is None || window.height->0 < 0 ==> shown[0].height == 0
        }),
{
    assert(seq![window].drop_last() =~= Seq::empty());
    assert(offered_windows(seq![window].drop_last()) == Seq::<CapturableWindowView>::empty());
}

/// Any other window is not offered.
pub proof fn law_an_untitled_window_is_not_offered(window: WindowInfo)
    requires
        !window.valid || window.title is None || is_blank(window.title->0@),
    ensures
        offered_windows(seq![window]).len() == 0,
{
    assert(seq![window].drop_last() =~= Seq::empty());
    assert(offered_windows(seq![window].drop_last()) == Seq::<CapturableWindowView>::empty());
}

/// Whether a window is offered, and as what, does not depend on the others:
/// what is offered of a list is what is offered of its beginning, then what is
/// offered of the rest, however long they are.
pub proof fn law_windows_are_offered_one_by_one(first: Seq<WindowInfo>, rest: Seq<WindowInfo>)
    ensures
        offered_windows(first + rest) == offered_windows(first) + offered_windows(rest),
        offered_windows(Seq::empty()) == Seq::<CapturableWindowView>::empty(),
    decreases rest.len(),
{
    if rest.len() == 0 {
        assert(first + rest =~= first);
        assert(offered_windows(first) + offered_windows(rest) =~= offered_windows(first));
    } else {
        law_windows_are_offered_one_by_one(first, rest.drop_last());
        assert((first + rest).drop_last() =~= first + rest.drop_last());
        assert((first + rest).last() == rest.last());
        assert(offered_windows(first + rest) =~= offered_windows(first) + offered_windows(rest));
    }
}

/// Every open window that can be captured and has a title is among those that
/// are offered: the list is all of these, in the order in which they are open,
/// and nothing else.
pub proof fn law_every_titled_window_is_offered(windows: Seq<WindowInfo>)
    ensures
        offered_windows(windows) == windows.filter(
            |w: WindowInfo| w.valid && w.title is Some && !is_blank(w.title->0@),
        ).map_values(
            |w: WindowInfo|
                CapturableWindowView {
                    title: w.title->0@,
                    process_name: if w.process_name is Some {
                        w.process_name->0@
                    } else {
                        Seq::empty()
                    },
                    width: if w.width is Some && w.width->0 >= 0 {
                        w.width->0 as u32
                    } else {
                        0
                    },
                    height: if w.height is Some && w.height->0 >= 0 {
                        w.height->0 as u32
                    } else {
                        0
                    },
                },
        ),
    decreases windows.len(),
{
    reveal(Seq::filter);
    if windows.len() > 0 {
        law_every_titled_window_is_offered(windows.drop_last());
        let last = windows.last();
        if last.title is None {
            assert(is_blank(text_of(last.title)));
        }
    }
    assert(offered_windows(windows) =~= windows.filter(
        |w: WindowInfo| w.valid && w.title is Some && !is_blank(w.title->0@),
    ).map_values(
        |w: WindowInfo|
            CapturableWindowView {
                title: w.title->0@,
                process_name: if w.process_name is Some {
                    w.process_name->0@
                } else {
                    Seq::empty()
                },
                width: if w.width is Some && w.width->0 >= 0 {
                    w.width->0 as u32
                } else {
                    0
                },
                height: if w.height is Some && w.height->0 >= 0 {
                    w.height->0 as u32
                } else {
                    0
                },
            },
    ));
}

/// However many windows are open, none hides another: each that can be
/// captured and has a title can be picked by it.
pub proof fn law_no_window_hides_another(windows: Seq<WindowInfo>, i: int)
    requires
        0 <= i < windows.len(),
        windows[i].valid,
        windows[i].title matches Some(title) && !is_blank(title@),
    ensures
        exists|k: int|
            0 <= k < offered_windows(windows).len() && (#[trigger] offered_windows(
                windows,
            )[k]).title == windows[i].title->0@,
{
    let first = windows.take(i);
    let one = seq![windows[i]];
    let rest = windows.skip(i + 1);
    assert(windows =~= first + (one + rest));
    law_windows_are_offered_one_by_one(first, one + rest);
    law_windows_are_offered_one_by_one(one, rest);
    law_a_titled_window_is_offered(windows[i]);
    assert(offered_windows(windows)[offered_windows(first).len() as int].title
        == windows[i].title->0@);
}

/// What to capture.
#[derive(Debug)]
pub enum CaptureSource {
    /// The whole primary monitor.
    Monitor,
    /// The window whose title holds this text.
    Window(String),
}

/// What to capture for the title that a user gave: that window, or the whole
/// monitor where there is no title or a blank one.
pub fn capture_source(window_title: Option<String>) -> (source: CaptureSource)
    ensures
        match source {
            CaptureSource::Window(title) => window_title == Some(title) && !is_blank(title@),
            CaptureSource::Monitor => is_blank(text_of(window_title)),
        },
{
    match window_title {
        Some(title) => if blank(title.as_str()) {
            CaptureSource::Monitor
        } else {
            CaptureSource::Window(title)
        },
        None => CaptureSource::Monitor,
    }
}

/// Counts the frames of a trial run, and keeps what the first one was like.
#[derive(Debug)]
pub struct FrameCounter {
    /// The frames so far, counted modulo 2^32.
    pub count: u32,
    pub first_width: u32,
    pub first_height: u32,
    pub first_buffer_len: usize,
}

impl FrameCounter {
    pub fn new() -> (counter: FrameCounter)
        ensures
            counter == (FrameCounter {
                count: 0,
                first_width: 0,
                first_height: 0,
                first_buffer_len: 0,
            }),
    {
        FrameCounter { count: 0, first_width: 0, first_height: 0, first_buffer_len: 0 }
    }

    /// Counts one more frame. Says whether to read its pixels: only those of
    /// the first, since reading them all would slow down what is measured.
    pub fn arrived(&mut self) -> (read: bool)
        ensures
            read == (old(self).count == 0),
            *final(self) == (FrameCounter {
                count: if old(self).count == u32::MAX {
                    0
                } else {
                    (old(self).count + 1) as u32
                },
                ..*old(self)
            }),
    {
        let read = self.count == 0;
        if self.count == u32::MAX {
            self.count = 0;
        } else {
            self.count = self.count + 1;
        }
        read
    }

    /// Keeps the dimensions and the buffer length of the first frame.
    pub fn keep_first(&mut self, width: u32, height: u32, buffer_len: usize)
        ensures
            *final(self) == (FrameCounter {
                count: old(self).count,
                first_width: width,
                first_height: height,
                first_buffer_len: buffer_len,
            }),
    {
        self.first_width = width;
        self.first_height = height;
        self.first_buffer_len = buffer_len;
    }
}

/// Whether a capture of limited length ends with the frame at hand: when its
/// time is up, or when nobody takes its frames any more.
pub fn capture_ends(taken: bool, elapsed_secs: u64, duration_secs: u64) -> (ends: bool)
    ensures
        ends == (!taken || elapsed_secs >= duration_secs),
{
    !taken || elapsed_secs >= duration_secs
}

} // verus!
