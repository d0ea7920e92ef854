//! Prompts of the init system's ask-password protocol: which descriptor
//! files are prompts, what a descriptor says, and how a prompt is answered
//! through the reply helper.

use crate::ini_file::{
    document_sections, find_section, first_value, load_document, loaded_sections, value_of,
    KeyValues,
};
use crate::secret::Secret;
use crate::text::{allocatable, push_char, starts_with, string_with_capacity};
use ini::Ini;
use vstd::prelude::*;

verus! {

/// The directory in which the init system drops its prompt descriptors.
pub const REQUESTS_DIR: &'static str = "/run/systemd/ask-password/";

/// A prompt for a secret, as its descriptor file states it.
#[derive(Debug)]
pub struct PasswordRequest {
    pub socket_path: String,
    pub id: Option<String>,
    pub message: Option<String>,
}

/// What a prompt says, by its characters.
pub struct RequestView {
    pub socket_path: Seq<char>,
    pub id: Option<Seq<char>>,
    pub message: Option<Seq<char>>,
}

impl DeepView for PasswordRequest {
    type V = RequestView;

    open spec fn deep_view(&self) -> RequestView {
        RequestView {
            socket_path: self.socket_path@,
            id: self.id.deep_view(),
            message: self.message.deep_view(),
        }
    }
}

impl View for PasswordRequest {
    type V = RequestView;

    open spec fn view(&self) -> RequestView {
        self.deep_view()
    }
}

/// Why a descriptor is no prompt.
#[derive(Debug, Clone, Copy, PartialEq, Eq, Structural)]
pub enum RequestError {
    /// The text is no INI document.
    Malformed,
    /// The document has no `[Ask]` section.
    NoAskSection,
    /// The `[Ask]` section names no reply socket.
    NoSocket,
}

/// The prompt that the sections of a descriptor state: `Socket` of `[Ask]`
/// is required, `Id` and `Message` are taken where they are there.
pub open spec fn request_of_sections(sections: Map<Seq<char>, KeyValues>) -> Result<
    RequestView,
    RequestError,
> {
    if !sections.contains_key("Ask"@) {
        Err(RequestError::NoAskSection)
    } else {
        let ask = sections["Ask"@];
        match value_of(ask, "Socket"@) {
            None => Err(RequestError::NoSocket),
            Some(socket) => Ok(
                RequestView {
                    socket_path: socket,
                    id: value_of(ask, "Id"@),
                    message: value_of(ask, "Message"@),
                },
            ),
        }
    }
}

/// The prompt that the text of a descriptor file states.
pub open spec fn request_of_text(text: Seq<char>) -> Result<RequestView, RequestError> {
    match loaded_sections(text) {
        None => Err(RequestError::Malformed),
        Some(sections) => request_of_sections(sections),
    }
}

/// What a result of reading a descriptor says, with the prompt by its
/// characters.
pub open spec fn request_outcome(r: Result<PasswordRequest, RequestError>) -> Result<
    RequestView,
    RequestError,
> {
    match r {
        Ok(request) => Ok(request@),
        Err(e) => Err(e),
    }
}

/// A file of the prompt directory at the moment it was looked at.
#[derive(Debug)]
pub struct PromptFile {
    /// The file's name inside the directory.
    pub name: String,
    /// The file's text, or `None` where the file was gone again.
    pub content: Option<String>,
}

/// A file of the prompt directory, by its characters.
pub struct PromptFileView {
    pub name: Seq<char>,
    pub content: Option<Seq<char>>,
}

impl DeepView for PromptFile {
    type V = PromptFileView;

    open spec fn deep_view(&self) -> PromptFileView {
        PromptFileView { name: self.name@, content: self.content.deep_view() }
    }
}

/// Whether a file name of the prompt directory is that of a prompt.
pub open spec fn is_request_name(name: Seq<char>) -> bool {
    "ask."@.is_prefix_of(name)
}

/// The prompt that a file of the directory gives: none for another name, for
/// a file that is gone, and for a descriptor that does not parse.
pub open spec fn request_of_file(file: PromptFileView) -> Option<RequestView> {
    if !is_request_name(file.name) {
        None
    } else {
        match file.content {
            None => None,
            Some(text) => match request_of_text(text) {
                Ok(request) => Some(request),
                Err(_) => None,
            },
        }
    }
}

/// The prompts that a run of files gives, in the order of the files.
pub open spec fn requests_of_files(files: Seq<PromptFileView>) -> Seq<RequestView>
    decreases files.len(),
{
    if files.len() == 0 {
        Seq::empty()
    } else {
        let before = requests_of_files(files.drop_last());
        match request_of_file(files.last()) {
            Some(request) => before.push(request),
            None => before,
        }
    }
}

/// How a prompt is answered: the reply helper's arguments and input.
#[derive(Debug)]
pub struct ReplyCommand {
    accept: bool,
    socket_path: String,
    input: Option<Secret>,
}

/// A reply, by its characters.
pub struct ReplyView {
    /// Whether the prompt is answered with a password or declined.
    pub accept: bool,
    /// The reply socket, the helper's second argument.
    pub socket_path: Seq<char>,
    /// What the helper reads from its standard input, if anything.
    pub input: Option<Seq<char>>,
}

/// The reply to a prompt with the given password, or the refusal without
/// one. The helper reads the password as one line.
pub open spec fn reply_to(request: RequestView, password: Option<Seq<char>>) -> ReplyView {
    ReplyView {
        accept: password is Some,
        socket_path: request.socket_path,
        input: match password {
            Some(p) => Some(p.push('\n')),
            None => None,
        },
    }
}

/// How an attempt to answer a prompt ended.
#[derive(Debug, Clone, Copy, PartialEq, Eq, Structural)]
pub enum ReplyOutcome {
    /// The helper delivered the answer.
    Delivered,
    /// The helper failed and the reply socket is gone: someone else has
    /// answered the prompt first. This is no fault.
    Stale,
    /// The helper failed while the reply socket was there.
    Failed,
}

impl DeepView for ReplyCommand {
    type V = ReplyView;

    closed spec fn deep_view(&self) -> ReplyView {
        ReplyView {
            accept: self.accept,
            socket_path: self.socket_path@,
            input: self.input.deep_view(),
        }
    }
}

impl View for ReplyCommand {
    type V = ReplyView;

    open spec fn view(&self) -> ReplyView {
        self.deep_view()
    }
}

impl ReplyCommand {
    /// The helper's first argument: `"1"` to accept, `"0"` to decline.
    pub fn decision(&self) -> (arg: &'static str)
        ensures
            arg@ == (if self@.accept {
                "1"@
            } else {
                "0"@
            }),
    {
        if self.accept {
            "1"
        } else {
            "0"
        }
    }

    /// The helper's second argument: the reply socket of the prompt.
    pub fn socket_path(&self) -> (path: &str)
        ensures
            path@ == self@.socket_path,
    {
        self.socket_path.as_str()
    }

    /// What to write to the helper's standard input, if anything.
    pub fn input(&self) -> (input: Option<&str>)
        ensures
            input.deep_view() == self@.input,
    {
        match &self.input {
            Some(secret) => Some(secret.as_str()),
            None => None,
        }
    }

    /// Judges the helper's run: a failure counts only while the reply socket
    /// still exists.
    pub fn outcome(helper_succeeded: bool, socket_exists: bool) -> (r: ReplyOutcome)
        ensures
            r == (if helper_succeeded {
                ReplyOutcome::Delivered
            } else if socket_exists {
                ReplyOutcome::Failed
            } else {
                ReplyOutcome::Stale
            }),
    {
        if helper_succeeded {
            ReplyOutcome::Delivered
        } else if socket_exists {
            ReplyOutcome::Failed
        } else {
            ReplyOutcome::Stale
        }
    }
}

impl PasswordRequest {
    /// A prompt with the given reply socket, id and message.
    pub fn new(socket_path: String, id: Option<String>, message: Option<String>) -> (r: Self)
        ensures
            r@ == (RequestView {
                socket_path: socket_path@,
                id: id.deep_view(),
                message: message.deep_view(),
            }),
            r.socket_path == socket_path,
            r.id == id,
            r.message == message,
    {
        PasswordRequest { socket_path, id, message }
    }

    /// The prompt that a parsed descriptor states.
    pub fn from_ini(document: &Ini) -> (r: Result<PasswordRequest, RequestError>)
        ensures
            request_outcome(r) == request_of_sections(document_sections(*document)),
    {
        match find_section(document, "Ask") {
            None => Err(RequestError::NoAskSection),
            Some(ask) => match first_value(ask, "Socket") {
                None => Err(RequestError::NoSocket),
                Some(socket) => {
                    let id = match first_value(ask, "Id") {
                        Some(v) => Some(String::from_str(v)),
                        None => None,
                    };
                    let message = match first_value(ask, "Message") {
                        Some(v) => Some(String::from_str(v)),
                        None => None,
                    };
                    Ok(PasswordRequest { socket_path: String::from_str(socket), id, message })
                },
            },
        }
    }

    /// The prompt that a descriptor's text states.
    pub fn load_from_ini(text: &str) -> (r: Result<PasswordRequest, RequestError>)
        ensures
            request_outcome(r) == request_of_text(text@),
    {
        match load_document(text) {
            None => Err(RequestError::Malformed),
            Some(document) => Self::from_ini(&document),
        }
    }

    /// Whether a file of the prompt directory is a prompt, by its name.
    pub fn is_request_file(name: &str) -> (r: bool)
        ensures
            r == is_request_name(name@),
    {
        starts_with(name, "ask.")
    }

    /// The prompts among the files that a look at the prompt directory
    /// found, in the order of the files. Files with other names, files that
    /// were gone again and descriptors that do not parse are passed over.
    pub fn listen(files: &Vec<PromptFile>) -> (requests: Vec<PasswordRequest>)
        ensures
            requests.deep_view() == requests_of_files(files.deep_view()),
    {
        let mut requests: Vec<PasswordRequest> = Vec::new();
        let mut i: usize = 0;
        proof {
            assert(files.deep_view().take(0) =~= Seq::<PromptFileView>::empty());
            assert(requests.deep_view() =~= Seq::<RequestView>::empty());
        }
        while i < files.len()
            invariant
                i <= files.len(),
                requests.deep_view() == requests_of_files(files.deep_view().take(i as int)),
            decreases files.len() - i,
        {
            let file = &files[i];
            let ghost before = requests.deep_view();
            proof {
                let upto = files.deep_view().take(i + 1);
                assert(upto.drop_last() =~= files.deep_view().take(i as int));
                assert(upto.last() == file.deep_view());
            }
            if Self::is_request_file(file.name.as_str()) {
                match &file.content {
                    Some(text) => match Self::load_from_ini(text.as_str()) {
                        Ok(request) => {
                            requests.push(request);
                            proof {
                                assert(requests.deep_view() =~= before.push(request@));
                            }
                        },
                        Err(_) => {},
                    },
                    None => {},
                }
            }
            i = i + 1;
        }
        proof {
            assert(files.deep_view().take(files.len() as int) =~= files.deep_view());
        }
        requests
    }

    /// The path of a prompt file with the given name.
    pub fn path_of(name: &str) -> (path: String)
        ensures
            path@ == REQUESTS_DIR@ + name@,
    {
        let mut path = String::from_str(REQUESTS_DIR);
        path.append(name);
        path
    }

    /// How to answer this prompt: with the password, which the helper reads
    /// as one line from its standard input, or with a refusal.
    pub fn reply(self, password: Option<Secret>) -> (command: ReplyCommand)
        ensures
            command@ == reply_to(self@, password.deep_view()),
    {
        match password {
            Some(secret) => {
                let text = secret.as_str();
                let n = text.len();
                let capacity: usize = if n < usize::MAX {
                    n + 1
                } else {
                    n
                };
                let mut line = string_with_capacity(allocatable(capacity));
                line.append(text);
                push_char(&mut line, '\n');
                proof {
                    assert(line@ =~= secret@.push('\n'));
                }
                ReplyCommand {
                    accept: true,
                    socket_path: self.socket_path,
                    input: Some(Secret::new(line)),
                }
            },
            None => ReplyCommand { accept: false, socket_path: self.socket_path, input: None },
        }
    }
}

} // verus!
