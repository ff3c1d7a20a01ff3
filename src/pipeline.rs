//! The run over all sources: fetch, skip what the ledger holds, deliver,
//! record; stop at the first error and tell the owner.
//!
//! The run is a state machine. Its driver asks for the next action, performs
//! it (a fetch, a ledger query, a transport call, a ledger insert, the owner
//! notification) and hands the outcome back through the matching `on_` method.
use vstd::prelude::*;
use crate::date::Date;
use crate::delivery::{outgoing_all, outgoing_texts, strings_view};
use crate::error::{error_text, Error};
use crate::news_post::{markdown_of, NewsPost};

verus! {

/// First message to the owner when a run fails (light markup).
pub open spec fn error_banner() -> Seq<char> {
    "*Error running bot:* _Comunicados Aguas do Rio_"@
}

/// The message rendered for a post.
pub open spec fn post_message(p: NewsPost) -> Seq<char> {
    markdown_of(p.spec_title(), p.spec_url(), p.spec_date(), p.spec_content())
}

#[derive(Clone, Copy, PartialEq, Eq, Structural, Debug)]
pub enum Stage {
    Fetching,
    Checking,
    Sending,
    Recording,
    Finished,
    Failed,
}

/// What the driver is to do next.
pub enum Action {
    /// Fetch the posts of the source with this index, in configured order.
    Fetch { source: usize },
    /// Ask the ledger whether it holds this identity.
    CheckLedger { id: String },
    /// Hand this text to the transport with light markup, after the rate-limit
    /// pause when `wait_first` holds.
    Transmit { text: String, wait_first: bool },
    /// Add this identity to the ledger.
    Record { id: String, date: Option<Date> },
    /// Send the banner (light markup), then the detail (plain text), to the
    /// owner; the run has failed.
    NotifyOwner { banner: String, detail: String },
    /// The run is over and succeeded.
    Finish,
}

pub struct Pipeline {
    sources: usize,
    source: usize,
    posts: Vec<NewsPost>,
    post: usize,
    segments: Vec<String>,
    segment: usize,
    transmitted: bool,
    stage: Stage,
    error: Option<Error>,
}

impl Pipeline {
    pub closed spec fn spec_sources(&self) -> nat {
        self.sources as nat
    }

    /// Index of the source being worked on.
    pub closed spec fn spec_source(&self) -> nat {
        self.source as nat
    }

    /// The posts of the current source, in the order it gave them.
    pub closed spec fn spec_posts(&self) -> Seq<NewsPost> {
        self.posts@
    }

    /// Index of the post being worked on.
    pub closed spec fn spec_post(&self) -> nat {
        self.post as nat
    }

    /// The texts to send for the current post.
    pub closed spec fn spec_segments(&self) -> Seq<Seq<char>> {
        strings_view(self.segments@)
    }

    /// Index of the next text to send.
    pub closed spec fn spec_segment(&self) -> nat {
        self.segment as nat
    }

    /// Whether the transport has been called in this run.
    pub closed spec fn spec_transmitted(&self) -> bool {
        self.transmitted
    }

    pub closed spec fn spec_stage(&self) -> Stage {
        self.stage
    }

    pub closed spec fn spec_error(&self) -> Option<Error> {
        self.error
    }

    pub closed spec fn wf(&self) -> bool {
        &&& self.source <= self.sources
        &&& self.stage == Stage::Fetching ==> self.source < self.sources
        &&& (self.stage == Stage::Checking || self.stage == Stage::Recording) ==> self.post
            < self.posts@.len() && self.source < self.sources
        &&& self.stage == Stage::Sending ==> self.post < self.posts@.len() && self.segment
            < self.segments@.len() && self.source < self.sources
        &&& (self.stage == Stage::Failed <==> self.error is Some)
        &&& (self.stage == Stage::Sending || self.stage == Stage::Recording) ==> strings_view(
            self.segments@,
        ) == outgoing_all(post_message(self.posts@[self.post as int]))
    }

    /// The current post is done with: the state moves to the next post, else
    /// to the next source, else the run is finished.
    pub open spec fn moved_on(&self, next: &Pipeline) -> bool {
        &&& next.spec_sources() == self.spec_sources()
        &&& next.spec_transmitted() == self.spec_transmitted()
        &&& next.spec_error() == self.spec_error()
        &&& if self.spec_post() + 1 < self.spec_posts().len() {
            &&& next.spec_stage() == Stage::Checking
            &&& next.spec_source() == self.spec_source()
            &&& next.spec_posts() == self.spec_posts()
            &&& next.spec_post() == self.spec_post() + 1
        } else {
            self.next_source(next)
        }
    }

    /// The state moves to the next source, else the run is finished.
    pub open spec fn next_source(&self, next: &Pipeline) -> bool {
        &&& next.spec_source() == self.spec_source() + 1
        &&& next.spec_sources() == self.spec_sources()
        &&& if self.spec_source() + 1 < self.spec_sources() {
            next.spec_stage() == Stage::Fetching
        } else {
            next.spec_stage() == Stage::Finished
        }
    }

    /// The run has stopped on `e`.
    pub open spec fn failed_with(&self, e: Error) -> bool {
        &&& self.spec_stage() == Stage::Failed
        &&& self.spec_error() == Some(e)
    }

    /// A run over `sources` sources.
    pub fn new(sources: usize) -> (r: Pipeline)
        ensures
            r.wf(),
            r.spec_sources() == sources,
            r.spec_source() == 0,
            !r.spec_transmitted(),
            r.spec_stage() == if sources == 0 {
                Stage::Finished
            } else {
                Stage::Fetching
            },
    {
        Pipeline {
            sources,
            source: 0,
            posts: Vec::new(),
            post: 0,
            segments: Vec::new(),
            segment: 0,
            transmitted: false,
            stage: if sources == 0 {
                Stage::Finished
            } else {
                Stage::Fetching
            },
            error: None,
        }
    }

    pub fn stage(&self) -> (r: Stage)
        ensures
            r == self.spec_stage(),
    {
        self.stage
    }

    /// The action that the current state calls for.
    pub fn next_action(&self) -> (a: Action)
        requires
            self.wf(),
        ensures
            self.spec_stage() == Stage::Fetching ==> a == (Action::Fetch {
                source: self.spec_source() as usize,
            }),
            self.spec_stage() == Stage::Checking ==> (a matches Action::CheckLedger { id }
                && id@ == self.spec_posts()[self.spec_post() as int].spec_id()),
            self.spec_stage() == Stage::Sending ==> (a matches Action::Transmit {
                text,
                wait_first,
            } && text@ == self.spec_segments()[self.spec_segment() as int] && wait_first
                == self.spec_transmitted()),
            self.spec_stage() == Stage::Recording ==> (a matches Action::Record { id, date }
                && id@ == self.spec_posts()[self.spec_post() as int].spec_id() && date
                == self.spec_posts()[self.spec_post() as int].spec_date()),
            self.spec_stage() == Stage::Failed ==> (a matches Action::NotifyOwner {
                banner,
                detail,
            } && banner@ == error_banner() && detail@ == error_text(self.spec_error()->0)),
            self.spec_stage() == Stage::Finished ==> a == Action::Finish,
    {
        match self.stage {
            Stage::Fetching => Action::Fetch { source: self.source },
            Stage::Checking => Action::CheckLedger {
                id: String::from_str(self.posts[self.post].id()),
            },
            Stage::Sending => Action::Transmit {
                text: self.segments[self.segment].clone(),
                wait_first: self.transmitted,
            },
            Stage::Recording => {
                let p = &self.posts[self.post];
                Action::Record { id: String::from_str(p.id()), date: *p.date() }
            },
            Stage::Failed => {
                let detail = match &self.error {
                    Some(e) => e.to_string(),
                    None => String::new(),
                };
                Action::NotifyOwner {
                    banner: String::from_str("*Error running bot:* _Comunicados Aguas do Rio_"),
                    detail,
                }
            },
            Stage::Finished => Action::Finish,
        }
    }

    /// Stops the run on `e`, whatever it was doing.
    pub fn abort(&mut self, e: Error)
        requires
            old(self).wf(),
        ensures
            final(self).wf(),
            final(self).failed_with(e),
            final(self).spec_sources() == old(self).spec_sources(),
            final(self).spec_transmitted() == old(self).spec_transmitted(),
    {
        self.fail(e)
    }

    fn fail(&mut self, e: Error)
        requires
            old(self).wf(),
        ensures
            final(self).wf(),
            final(self).failed_with(e),
            final(self).spec_sources() == old(self).spec_sources(),
            final(self).spec_transmitted() == old(self).spec_transmitted(),
    {
        self.stage = Stage::Failed;
        self.error = Some(e);
    }

    fn advance_source(&mut self)
        requires
            old(self).wf(),
            old(self).spec_stage() != Stage::Failed,
            old(self).spec_source() < old(self).spec_sources(),
        ensures
            final(self).wf(),
            old(self).next_source(final(self)),
            final(self).spec_transmitted() == old(self).spec_transmitted(),
            final(self).spec_error() == old(self).spec_error(),
    {
        self.source = self.source + 1;
        if self.source < self.sources {
            self.stage = Stage::Fetching;
        } else {
            self.stage = Stage::Finished;
        }
    }

    fn advance_post(&mut self)
        requires
            old(self).wf(),
            old(self).spec_stage() == Stage::Checking || old(self).spec_stage()
                == Stage::Recording,
        ensures
            final(self).wf(),
            old(self).moved_on(final(self)),
    {
        let n = self.posts.len();
        if self.post < n - 1 {
            self.post = self.post + 1;
            self.stage = Stage::Checking;
        } else {
            self.advance_source();
        }
    }

    /// The current source was fetched, or failed.
    pub fn on_fetched(&mut self, fetched: Result<Vec<NewsPost>, Error>)
        requires
            old(self).wf(),
            old(self).spec_stage() == Stage::Fetching,
        ensures
            final(self).wf(),
            final(self).spec_transmitted() == old(self).spec_transmitted(),
            match fetched {
                Ok(posts) => if posts@.len() > 0 {
                    &&& final(self).spec_stage() == Stage::Checking
                    &&& final(self).spec_source() == old(self).spec_source()
                    &&& final(self).spec_sources() == old(self).spec_sources()
                    &&& final(self).spec_posts() == posts@
                    &&& final(self).spec_post() == 0
                } else {
                    old(self).next_source(final(self))
                },
                Err(e) => final(self).failed_with(e),
            },
    {
        match fetched {
            Ok(posts) => {
                if posts.len() > 0 {
                    self.posts = posts;
                    self.post = 0;
                    self.stage = Stage::Checking;
                } else {
                    self.advance_source();
                }
            },
            Err(e) => self.fail(e),
        }
    }

    /// The ledger answered whether it holds the current post. A post that it
    /// holds is skipped; another is rendered and split for sending.
    pub fn on_checked(&mut self, known: Result<bool, Error>)
        requires
            old(self).wf(),
            old(self).spec_stage() == Stage::Checking,
        ensures
            final(self).wf(),
            match known {
                Ok(true) => old(self).moved_on(final(self)),
                Ok(false) => {
                    &&& final(self).spec_segments() == outgoing_all(
                        post_message(old(self).spec_posts()[old(self).spec_post() as int]),
                    )
                    &&& final(self).spec_segment() == 0
                    &&& final(self).spec_stage() == if final(self).spec_segments().len() > 0 {
                        Stage::Sending
                    } else {
                        Stage::Recording
                    }
                    &&& final(self).spec_source() == old(self).spec_source()
                    &&& final(self).spec_sources() == old(self).spec_sources()
                    &&& final(self).spec_posts() == old(self).spec_posts()
                    &&& final(self).spec_post() == old(self).spec_post()
                    &&& final(self).spec_transmitted() == old(self).spec_transmitted()
                },
                Err(e) => final(self).failed_with(e),
            },
    {
        match known {
            Ok(true) => self.advance_post(),
            Ok(false) => {
                let message = self.posts[self.post].as_markdown_string();
                self.segments = outgoing_texts(message.as_str());
                self.segment = 0;
                if self.segments.len() > 0 {
                    self.stage = Stage::Sending;
                } else {
                    self.stage = Stage::Recording;
                }
            },
            Err(e) => self.fail(e),
        }
    }

    /// The transport took the current text, or failed. Texts go out one at
    /// a time in order; once all of a post's are out, the post is recorded.
    pub fn on_sent(&mut self, sent: Result<(), Error>)
        requires
            old(self).wf(),
            old(self).spec_stage() == Stage::Sending,
        ensures
            final(self).wf(),
            match sent {
                Ok(()) => {
                    &&& final(self).spec_transmitted()
                    &&& final(self).spec_segment() == old(self).spec_segment() + 1
                    &&& final(self).spec_stage() == if old(self).spec_segment() + 1 < old(
                        self,
                    ).spec_segments().len() {
                        Stage::Sending
                    } else {
                        Stage::Recording
                    }
                    &&& final(self).spec_segments() == old(self).spec_segments()
                    &&& final(self).spec_source() == old(self).spec_source()
                    &&& final(self).spec_sources() == old(self).spec_sources()
                    &&& final(self).spec_posts() == old(self).spec_posts()
                    &&& final(self).spec_post() == old(self).spec_post()
                },
                Err(e) => final(self).failed_with(e),
            },
    {
        match sent {
            Ok(()) => {
                let n = self.segments.len();
                assert(self.segment < n);
                self.transmitted = true;
                self.segment = self.segment + 1;
                if self.segment < self.segments.len() {
                    self.stage = Stage::Sending;
                } else {
                    self.stage = Stage::Recording;
                }
            },
            Err(e) => self.fail(e),
        }
    }

    /// The ledger took the current post's identity, or failed.
    pub fn on_recorded(&mut self, recorded: Result<(), Error>)
        requires
            old(self).wf(),
            old(self).spec_stage() == Stage::Recording,
        ensures
            final(self).wf(),
            match recorded {
                Ok(()) => old(self).moved_on(final(self)),
                Err(e) => final(self).failed_with(e),
            },
    {
        match recorded {
            Ok(()) => self.advance_post(),
            Err(e) => self.fail(e),
        }
    }
}

/// While a post is being sent, the texts go out exactly as the splitter
/// produced them for that post's message, one after another: the next text
/// handed to the transport is the one after those already sent.
pub proof fn law_sending_follows_split(p: Pipeline)
    requires
        p.wf(),
        p.spec_stage() == Stage::Sending,
    ensures
        p.spec_segments() == outgoing_all(post_message(p.spec_posts()[p.spec_post() as int])),
        p.spec_segment() < p.spec_segments().len(),
{
}

} // verus!
