//! What a list shows while it is filled, and how peeks and animations behave.
use vstd::prelude::*;
use vstd::string::*;

verus! {

/// What takes the place of a list.
#[derive(Debug, Clone, Copy, PartialEq, Eq, Structural)]
pub enum Page {
    /// Signs of rows that are to come.
    Loading,
    /// The rows.
    Content,
    /// A message.
    Feedback,
}

/// What a list shows.
#[derive(Debug)]
pub struct LoadPresentation {
    pub page: Page,
    pub message: String,
    /// Whether the message tells of an error.
    pub error: bool,
    /// Whether there is a way to try again.
    pub can_retry: bool,
    /// Whether that way is shown along with the message.
    pub retry_shown: bool,
}

/// What a presentation holds.
#[verifier::ext_equal]
pub struct PresentationView {
    pub page: Page,
    pub message: Seq<char>,
    pub error: bool,
    pub can_retry: bool,
    pub retry_shown: bool,
}

impl View for LoadPresentation {
    type V = PresentationView;

    open spec fn view(&self) -> PresentationView {
        PresentationView {
            page: self.page,
            message: self.message@,
            error: self.error,
            can_retry: self.can_retry,
            retry_shown: self.retry_shown,
        }
    }
}

/// A list that has just been set up.
pub open spec fn fresh_presentation(can_retry: bool) -> PresentationView {
    PresentationView {
        page: Page::Loading,
        message: Seq::empty(),
        error: false,
        can_retry,
        retry_shown: can_retry,
    }
}

impl PresentationView {
    /// The list is filled.
    pub open spec fn loading(self) -> PresentationView {
        PresentationView { page: Page::Loading, retry_shown: false, ..self }
    }

    /// There are rows.
    pub open spec fn content(self) -> PresentationView {
        PresentationView { page: Page::Content, ..self }
    }

    /// There are no rows.
    pub open spec fn empty(self) -> PresentationView {
        PresentationView {
            page: Page::Feedback,
            message: "This directory is empty"@,
            error: false,
            retry_shown: false,
            ..self
        }
    }

    /// The list could not be filled. Where there is a way to try again, it is offered.
    pub open spec fn failed(self, message: Seq<char>) -> PresentationView {
        PresentationView {
            page: Page::Feedback,
            message,
            error: true,
            retry_shown: self.can_retry,
            ..self
        }
    }

    /// The list is filled to the end.
    pub open spec fn finished(self, count: int) -> PresentationView {
        if count == 0 {
            self.empty()
        } else {
            self.content()
        }
    }
}

impl Clone for LoadPresentation {
    fn clone(&self) -> (copy: Self)
        ensures
            copy@ == self@,
    {
        LoadPresentation {
            page: self.page,
            message: self.message.clone(),
            error: self.error,
            can_retry: self.can_retry,
            retry_shown: self.retry_shown,
        }
    }
}

impl LoadPresentation {
    /// A list that has just been set up.
    pub fn new(can_retry: bool) -> (presentation: Self)
        ensures
            presentation@ == fresh_presentation(can_retry),
    {
        let presentation = LoadPresentation {
            page: Page::Loading,
            message: String::new(),
            error: false,
            can_retry,
            retry_shown: can_retry,
        };
        assert(presentation@ =~= fresh_presentation(can_retry));
        presentation
    }

    /// The list is filled.
    pub fn show_loading(&mut self)
        ensures
            final(self)@ == old(self)@.loading(),
    {
        self.page = Page::Loading;
        self.retry_shown = false;
    }

    /// There are rows.
    pub fn show_content(&mut self)
        ensures
            final(self)@ == old(self)@.content(),
    {
        self.page = Page::Content;
    }

    /// There are no rows.
    pub fn show_empty(&mut self)
        ensures
            final(self)@ == old(self)@.empty(),
    {
        self.message = "This directory is empty".to_owned();
        self.error = false;
        self.retry_shown = false;
        self.page = Page::Feedback;
    }

    /// The list could not be filled.
    pub fn show_error(&mut self, message: String)
        ensures
            final(self)@ == old(self)@.failed(message@),
    {
        self.message = message;
        self.error = true;
        self.retry_shown = self.can_retry;
        self.page = Page::Feedback;
    }

    /// The list is filled to the end.
    pub fn show_finished(&mut self, count: usize)
        ensures
            final(self)@ == old(self)@.finished(count as int),
    {
        if count == 0 {
            self.show_empty();
        } else {
            self.show_content();
        }
    }
}

/// The message of a directory that cannot be read.
pub open spec fn unreadable(message: Seq<char>) -> Seq<char> {
    "Unable to read this directory\n"@ + message
}

/// The message of a directory that cannot be read.
pub fn unreadable_message(message: &str) -> (text: String)
    ensures
        text@ == unreadable(message@),
{
    let mut text = "Unable to read this directory\n".to_owned();
    text.append(message);
    text
}

/// A list that is filled, one that is empty, one that failed and one with rows are told apart by
/// the page, or by whether the message tells of an error.
pub proof fn lemma_presentations_are_distinct(p: PresentationView, message: Seq<char>)
    ensures
        p.loading().page != p.content().page,
        p.loading().page != p.empty().page,
        p.loading().page != p.failed(message).page,
        p.content().page != p.empty().page,
        p.content().page != p.failed(message).page,
        p.empty().error != p.failed(message).error,
        p.failed(message).retry_shown == p.can_retry,
        !p.empty().retry_shown,
{
}

/// How peeks behave. Times are in milliseconds.
#[derive(Debug, Clone, Copy)]
pub struct PeekBehavior {
    /// How long the pointer rests before a peek opens.
    pub open_delay: u64,
    /// How long the pointer is away before a peek closes.
    pub close_delay: u64,
    pub fade_duration: u64,
    /// How many rows a peek shows. It always shows one.
    pub item_limit: usize,
}

impl Default for PeekBehavior {
    fn default() -> (behavior: Self)
        ensures
            behavior.open_delay == 180,
            behavior.close_delay == 80,
            behavior.fade_duration == 100,
            behavior.item_limit == 8,
    {
        PeekBehavior { open_delay: 180, close_delay: 80, fade_duration: 100, item_limit: 8 }
    }
}

impl PeekBehavior {
    /// The time that fading takes, as far as it can be told to a transition.
    pub fn transition_duration(&self) -> (duration: u32)
        ensures
            duration == if self.fade_duration > u32::MAX {
                u32::MAX as int
            } else {
                self.fade_duration as int
            },
    {
        if self.fade_duration > 4294967295 {
            4294967295
        } else {
            self.fade_duration as u32
        }
    }
}

/// How many of the entries still fit into a peek that shows `shown` rows.
pub open spec fn peek_room(limit: int, shown: int) -> int {
    let most = if limit < 1 {
        1
    } else {
        limit
    };
    if shown < most {
        most - shown
    } else {
        0
    }
}

/// What tells the latest animation from those that it takes the place of.
#[derive(Debug)]
pub struct Generation {
    latest: u64,
}

impl Generation {
    /// The number of the latest animation.
    pub closed spec fn latest(&self) -> u64 {
        self.latest
    }

    /// Before the first animation.
    pub fn new() -> (generation: Self)
        ensures
            generation.latest() == 0,
    {
        Generation { latest: 0 }
    }

    /// Starts an animation in place of those before it.
    pub fn advance(&mut self) -> (id: u64)
        ensures
            final(self).latest() == id,
            id == if old(self).latest() == u64::MAX {
                u64::MAX as int
            } else {
                old(self).latest() + 1
            },
    {
        self.latest = self.latest.saturating_add(1);
        self.latest
    }

    /// Whether an animation is still the latest one.
    pub fn is_current(&self, id: u64) -> (current: bool)
        ensures
            current == (id == self.latest()),
    {
        self.latest == id
    }
}

} // verus!
