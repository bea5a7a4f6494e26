//! The browser frontend's decisions: where the spectrum feed is, and the panel from which a message
//! is sent to a block of the running flowgraph.

use vstd::prelude::*;

use crate::text::{decimal, decimal_text, same_text};

verus! {

/// The port of the spectrum feed.
pub const SPECTRUM_WS_PORT: u16 = 9001;

/// The address of the spectrum feed on a host: in the clear for a page that was itself loaded in the
/// clear, encrypted otherwise.
pub open spec fn ws_url_text(protocol: Seq<char>, host: Seq<char>) -> Seq<char> {
    (if protocol == "http:"@ {
        "ws://"@
    } else {
        "wss://"@
    }) + host + ":"@ + decimal_text(9001)
}

/// The address of the spectrum feed.
pub fn ws_url(protocol: &str, host: &str) -> (r: String)
    ensures
        r@ == ws_url_text(protocol@, host@),
{
    let port = decimal(SPECTRUM_WS_PORT as u64);
    let scheme = if same_text(protocol, "http:") {
        "ws://"
    } else {
        "wss://"
    };
    scheme.to_owned().concat(host).concat(":").concat(port.as_str())
}

/// Where the feed is: on the page's host at the port 9001, in the clear exactly where the page is.
pub proof fn feed_address(protocol: Seq<char>, host: Seq<char>)
    ensures
        protocol == "http:"@ ==> ws_url_text(protocol, host) == "ws://"@ + host + ":9001"@,
        protocol != "http:"@ ==> ws_url_text(protocol, host) == "wss://"@ + host + ":9001"@,
{
    reveal_strlit(":");
    reveal_strlit(":9001");
    reveal_with_fuel(decimal_text, 5);
    assert(decimal_text(9001) =~= seq!['9', '0', '0', '1']);
    assert(":"@ + decimal_text(9001) =~= ":9001"@);
    assert(("ws://"@ + host + ":"@) + decimal_text(9001) =~= ("ws://"@ + host) + ":9001"@);
    assert(("wss://"@ + host + ":"@) + decimal_text(9001) =~= ("wss://"@ + host) + ":9001"@);
}

/// Where a message input was clicked.
#[derive(Clone, Copy, Debug, PartialEq, Eq, Structural)]
pub enum Source {
    Canvas,
    Table,
}

/// The message input that a message is to go to.
#[derive(Debug, PartialEq, Eq)]
pub struct MessageInputTarget {
    pub block_id: usize,
    pub block_name: String,
    pub handler: String,
    pub source: Source,
}

/// A [`MessageInputTarget`] by its contents.
pub struct TargetView {
    pub block_id: usize,
    pub block_name: Seq<char>,
    pub handler: Seq<char>,
    pub source: Source,
}

impl View for MessageInputTarget {
    type V = TargetView;

    open spec fn view(&self) -> TargetView {
        TargetView {
            block_id: self.block_id,
            block_name: self.block_name@,
            handler: self.handler@,
            source: self.source,
        }
    }
}

/// The panel: open while there is a target; it shows the last error, and is locked while a message is
/// on its way.
#[derive(Debug, PartialEq, Eq)]
pub struct Panel {
    pub target: Option<MessageInputTarget>,
    pub submit_error: Option<String>,
    pub submitting: bool,
}

/// A [`Panel`] by its contents.
pub struct PanelView {
    pub target: Option<TargetView>,
    pub submit_error: Option<Seq<char>>,
    pub submitting: bool,
}

impl PanelView {
    /// The panel is open.
    pub open spec fn is_open(self) -> bool {
        self.target is Some
    }

    /// After a message input was clicked.
    pub open spec fn opened(self, target: TargetView) -> PanelView {
        PanelView { target: Some(target), submit_error: None, ..self }
    }

    /// After the panel was closed.
    pub open spec fn closed_up(self) -> PanelView {
        PanelView { target: None, ..self }
    }

    /// After a key was pressed.
    pub open spec fn keyed(self, key: Seq<char>) -> PanelView {
        if key == "Escape"@ {
            self.closed_up()
        } else {
            self
        }
    }

    /// After the message was submitted.
    pub open spec fn submitted(self) -> PanelView {
        if self.is_open() {
            PanelView { submit_error: None, submitting: true, ..self }
        } else {
            self
        }
    }

    /// After the message arrived, or failed with an error.
    pub open spec fn ended(self, error: Option<Seq<char>>) -> PanelView {
        match error {
            None => PanelView { target: None, submitting: false, ..self },
            Some(e) => PanelView {
                submit_error: Some("failed to send PMT: "@ + e),
                submitting: false,
                ..self
            },
        }
    }
}

/// The life of a panel. A click opens it for its target, without an error. While a message is on its way
/// it is locked, and an error from before is gone. A message that arrives closes it; one that fails
/// leaves it open for the same target, unlocked, with the error on show. A panel that is not open
/// submits nothing; the escape key closes it, and no other key does anything.
pub proof fn life_of_a_panel(p: PanelView, target: TargetView, e: Seq<char>, key: Seq<char>)
    ensures
        p.opened(target).target == Some(target) && p.opened(target).submit_error is None,
        p.opened(target).submitting == p.submitting,
        p.opened(target).submitted().submitting,
        p.is_open() ==> p.submitted().submitting && p.submitted().submit_error is None
            && p.submitted().target == p.target,
        !p.is_open() ==> p.submitted() == p,
        !p.ended(None).is_open() && !p.ended(None).submitting,
        p.ended(None).submit_error == p.submit_error,
        p.ended(Some(e)).target == p.target && !p.ended(Some(e)).submitting,
        p.ended(Some(e)).submit_error == Some("failed to send PMT: "@ + e),
        !p.closed_up().is_open() && p.closed_up().submitting == p.submitting
            && p.closed_up().submit_error == p.submit_error,
        key == "Escape"@ ==> p.keyed(key) == p.closed_up(),
        key != "Escape"@ ==> p.keyed(key) == p,
{
}

impl View for Panel {
    type V = PanelView;

    open spec fn view(&self) -> PanelView {
        PanelView {
            target: match self.target {
                Some(t) => Some(t@),
                None => None,
            },
            submit_error: match self.submit_error {
                Some(e) => Some(e@),
                None => None,
            },
            submitting: self.submitting,
        }
    }
}

impl MessageInputTarget {
    /// The line that tells where the message will go.
    pub fn caption(&self) -> (r: String)
        ensures
            r@ == (match self.source {
                Source::Canvas => "canvas"@,
                Source::Table => "table"@,
            }) + " -> block "@ + decimal_text(self.block_id as nat) + " ("@ + self.block_name@
                + ") / handler '"@ + self.handler@ + "'"@,
    {
        let source = match self.source {
            Source::Canvas => "canvas",
            Source::Table => "table",
        };
        let id = decimal(self.block_id as u64);
        source.to_owned().concat(" -> block ").concat(id.as_str()).concat(" (").concat(
            self.block_name.as_str(),
        ).concat(") / handler '").concat(self.handler.as_str()).concat("'")
    }
}

impl Panel {
    /// A closed panel.
    pub fn new() -> (r: Panel)
        ensures
            r@ == (PanelView { target: None, submit_error: None, submitting: false }),
    {
        Panel { target: None, submit_error: None, submitting: false }
    }

    /// A message input was clicked: the panel opens for it, without an error.
    pub fn open(&mut self, target: MessageInputTarget)
        ensures
            final(self)@ == old(self)@.opened(target@),
            final(self)@ == (PanelView { target: Some(target@), submit_error: None, ..old(self)@ }),
    {
        self.submit_error = None;
        self.target = Some(target);
    }

    /// The panel is closed by its button, by a click beside it, or by a key.
    pub fn close(&mut self)
        ensures
            final(self)@ == old(self)@.closed_up(),
            final(self)@ == (PanelView { target: None, ..old(self)@ }),
    {
        self.target = None;
    }

    /// A key was pressed: the escape key closes an open panel.
    pub fn key(&mut self, key: &str)
        ensures
            final(self)@ == old(self)@.keyed(key@),
            final(self)@ == (if key@ == "Escape"@ {
                PanelView { target: None, ..old(self)@ }
            } else {
                old(self)@
            }),
    {
        if same_text(key, "Escape") {
            self.target = None;
        }
    }

    /// The message is submitted: with a target, it is to be sent there, and the panel is locked.
    pub fn submit(&mut self) -> (r: Option<(usize, String)>)
        ensures
            final(self)@ == old(self)@.submitted(),
            match old(self)@.target {
                Some(t) => {
                    &&& r matches Some((id, handler)) && id == t.block_id && handler@ == t.handler
                    &&& final(self)@ == (PanelView {
                        submit_error: None,
                        submitting: true,
                        ..old(self)@
                    })
                },
                None => r is None && final(self)@ == old(self)@,
            },
    {
        let sent = match &self.target {
            Some(t) => Some((t.block_id, t.handler.clone())),
            None => None,
        };
        if sent.is_some() {
            self.submitting = true;
            self.submit_error = None;
        }
        sent
    }

    /// The message arrived, or failed with an error: success closes the panel, failure is shown.
    pub fn finished(&mut self, error: Option<&str>)
        ensures
            final(self)@ == old(self)@.ended(
                match error {
                    Some(e) => Some(e@),
                    None => None,
                },
            ),
            final(self)@ == (match error {
                None => PanelView { target: None, submitting: false, ..old(self)@ },
                Some(e) => PanelView {
                    submit_error: Some("failed to send PMT: "@ + e@),
                    submitting: false,
                    ..old(self)@
                },
            }),
    {
        self.submitting = false;
        match error {
            None => {
                self.target = None;
            },
            Some(e) => {
                self.submit_error = Some("failed to send PMT: ".to_owned().concat(e));
            },
        }
    }

    /// The text on the button that sends.
    pub fn button_text(&self) -> (r: &'static str)
        ensures
            r@ == (if self.submitting {
                "Sending..."@
            } else {
                "Send"@
            }),
    {
        if self.submitting {
            "Sending..."
        } else {
            "Send"
        }
    }
}

} // verus!
