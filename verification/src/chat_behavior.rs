//! The registry of a chat server: who is registered, from which node, and
//! who is logged in.

use crate::api::{
    texts, ChatRequest, ChatRequestView, ChatResponse, ChatResponseView, ClientListError,
    LoginError, LogoutError, MessageError, MessageErrorView, Password, RegisterError, Request,
    RequestView, Response, ResponseView, UserName,
};
use crate::specialized_behavior::{ProcessError, SetPathError};
use std::path::PathBuf;
use crate::packet::NodeId;
use vstd::prelude::*;

verus! {

/// One registered client.
pub struct Client {
    username: UserName,
    password: Password,
    node_id: NodeId,
    logged: bool,
}

/// A registered client as mathematics.
pub struct ClientView {
    pub username: Seq<char>,
    pub password: Seq<char>,
    pub node_id: NodeId,
    pub logged: bool,
}

impl View for Client {
    type V = ClientView;

    closed spec fn view(&self) -> ClientView {
        ClientView {
            username: self.username@,
            password: self.password@,
            node_id: self.node_id,
            logged: self.logged,
        }
    }
}

/// Whether no two clients have the same name.
pub open spec fn distinct(clients: Seq<ClientView>) -> bool {
    forall|i: int, j: int|
        0 <= i < clients.len() && 0 <= j < clients.len() && i != j ==> clients[i].username
            != clients[j].username
}

/// Whether a client of this name is registered.
pub open spec fn registered(clients: Seq<ClientView>, name: Seq<char>) -> bool {
    exists|i: int| 0 <= i < clients.len() && clients[i].username == name
}

/// The registered client of this name.
pub open spec fn entry(clients: Seq<ClientView>, name: Seq<char>) -> ClientView {
    clients[choose|i: int| 0 <= i < clients.len() && clients[i].username == name]
}

/// The names of the clients, in the order of their registration.
pub open spec fn names(clients: Seq<ClientView>) -> Seq<Seq<char>> {
    Seq::new(clients.len(), |i: int| clients[i].username)
}

/// Whether the client of this name is registered from `node_id` and logged
/// in.
pub open spec fn authenticated(clients: Seq<ClientView>, name: Seq<char>, node_id: NodeId) -> bool {
    registered(clients, name) && entry(clients, name).node_id == node_id && entry(
        clients,
        name,
    ).logged
}

/// The clients with the one of this name logged in or out.
pub open spec fn with_logged(clients: Seq<ClientView>, name: Seq<char>, logged: bool) -> Seq<
    ClientView,
> {
    Seq::new(
        clients.len(),
        |i: int|
            if clients[i].username == name {
                ClientView { logged, ..clients[i] }
            } else {
                clients[i]
            },
    )
}

/// The outcome of a registration: refused for a name already taken.
pub open spec fn register_outcome(clients: Seq<ClientView>, name: Seq<char>) -> Result<
    (),
    RegisterError,
> {
    if registered(clients, name) {
        Err(RegisterError::AlreadyRegistered)
    } else {
        Ok(())
    }
}

/// The clients after a registration: a new client is logged in at once.
pub open spec fn after_register(
    clients: Seq<ClientView>,
    name: Seq<char>,
    password: Seq<char>,
    node_id: NodeId,
) -> Seq<ClientView> {
    if registered(clients, name) {
        clients
    } else {
        clients.push(ClientView { username: name, password, node_id, logged: true })
    }
}

/// The outcome of a login.
pub open spec fn login_outcome(clients: Seq<ClientView>, name: Seq<char>, password: Seq<char>) -> Result<
    (),
    LoginError,
> {
    if !registered(clients, name) {
        Err(LoginError::NotRegistered)
    } else if entry(clients, name).logged {
        Err(LoginError::AlreadyLogged)
    } else if entry(clients, name).password != password {
        Err(LoginError::WrongPassword)
    } else {
        Ok(())
    }
}

/// The clients after a login.
pub open spec fn after_login(clients: Seq<ClientView>, name: Seq<char>, password: Seq<char>) -> Seq<
    ClientView,
> {
    if login_outcome(clients, name, password) is Ok {
        with_logged(clients, name, true)
    } else {
        clients
    }
}

/// The outcome of a logout.
pub open spec fn logout_outcome(clients: Seq<ClientView>, name: Seq<char>, node_id: NodeId) -> Result<
    (),
    LogoutError,
> {
    if !registered(clients, name) {
        Err(LogoutError::NotRegistered)
    } else if !entry(clients, name).logged {
        Err(LogoutError::NotLogged)
    } else if entry(clients, name).node_id != node_id {
        Err(LogoutError::InvalidNodeId)
    } else {
        Ok(())
    }
}

/// The clients after a logout.
pub open spec fn after_logout(clients: Seq<ClientView>, name: Seq<char>, node_id: NodeId) -> Seq<
    ClientView,
> {
    if logout_outcome(clients, name, node_id) is Ok {
        with_logged(clients, name, false)
    } else {
        clients
    }
}

/// Where a message goes, or why it does not go.
pub open spec fn message_outcome(
    clients: Seq<ClientView>,
    sender: Seq<char>,
    node_id: NodeId,
    recipient: Seq<char>,
) -> Result<NodeId, MessageErrorView> {
    if !authenticated(clients, sender, node_id) {
        Err(MessageErrorView::SenderNotLogged(sender))
    } else if !registered(clients, recipient) {
        Err(MessageErrorView::RecipientNotRegistered(recipient))
    } else if !entry(clients, recipient).logged {
        Err(MessageErrorView::RecipientNotLogged(recipient))
    } else {
        Ok(entry(clients, recipient).node_id)
    }
}

/// The clients after a request from node `initiator`.
pub open spec fn after_request(clients: Seq<ClientView>, request: ChatRequestView, initiator: NodeId) -> Seq<
    ClientView,
> {
    match request {
        ChatRequestView::Register(name, password) => after_register(
            clients,
            name,
            password,
            initiator,
        ),
        ChatRequestView::Login(name, password) => after_login(clients, name, password),
        ChatRequestView::Logout(name) => after_logout(clients, name, initiator),
        _ => clients,
    }
}

/// The response to a request from node `initiator`, and the node it goes
/// to.
pub open spec fn response_to(clients: Seq<ClientView>, request: ChatRequestView, initiator: NodeId) -> (
    ChatResponseView,
    NodeId,
) {
    let after = after_request(clients, request, initiator);
    match request {
        ChatRequestView::ClientList(name) => if authenticated(clients, name, initiator) {
            (ChatResponseView::ClientList(name, names(clients)), initiator)
        } else {
            (ChatResponseView::ClientListFailure(name, ClientListError::NotLogged), initiator)
        },
        ChatRequestView::Message(sender, recipient, text) => match message_outcome(
            clients,
            sender,
            initiator,
            recipient,
        ) {
            Ok(node_id) => (ChatResponseView::Message(sender, text), node_id),
            Err(error) => (ChatResponseView::MessageFailure(error), initiator),
        },
        ChatRequestView::Register(name, password) => match register_outcome(clients, name) {
            Ok(_) => (ChatResponseView::ClientList(name, names(after)), initiator),
            Err(error) => (ChatResponseView::RegisterFailure(name, error), initiator),
        },
        ChatRequestView::Login(name, password) => match login_outcome(clients, name, password) {
            Ok(_) => (ChatResponseView::ClientList(name, names(after)), initiator),
            Err(error) => (ChatResponseView::LoginFailure(name, error), initiator),
        },
        ChatRequestView::Logout(name) => match logout_outcome(clients, name, initiator) {
            Ok(_) => (ChatResponseView::LogoutSuccess(name), initiator),
            Err(error) => (ChatResponseView::LogoutFailure(name, error), initiator),
        },
    }
}

/// The registry of a chat server.
pub struct ChatBehavior {
    clients: Vec<Client>,
}

impl View for ChatBehavior {
    type V = Seq<ClientView>;

    closed spec fn view(&self) -> Seq<ClientView> {
        Seq::new(self.clients@.len(), |i: int| self.clients@[i]@)
    }
}

impl ChatBehavior {
    /// No two clients have the same name.
    pub closed spec fn wf(&self) -> bool {
        distinct(self@)
    }

    /// Well-formedness of the registry carries over to its view.
    pub proof fn lemma_wf_view(&self)
        requires
            self.wf(),
        ensures
            distinct(self@),
    {
    }

    /// An empty registry.
    pub fn new() -> (behavior: ChatBehavior)
        ensures
            behavior.wf(),
            behavior@ == Seq::<ClientView>::empty(),
    {
        let behavior = Self { clients: Vec::new() };
        behavior
    }

    /// Refuses a content directory: a chat server serves no content.
    pub fn set_path(&mut self, path: PathBuf) -> (result: Result<(), SetPathError>)
        ensures
            result == Err::<(), SetPathError>(SetPathError::WrongServerType),
            final(self)@ == old(self)@,
            old(self).wf() ==> final(self).wf(),
    {
        Err(SetPathError::WrongServerType)
    }

    /// Where the client of this name stands in the registry.
    fn find(&self, username: &UserName) -> (found: Option<usize>)
        requires
            self.wf(),
        ensures
            match found {
                Some(i) => i < self@.len() && self@[i as int].username == username@ && registered(
                    self@,
                    username@,
                ) && entry(self@, username@) == self@[i as int],
                None => !registered(self@, username@),
            },
    {
        let mut i: usize = 0;
        while i < self.clients.len()
            invariant
                i <= self.clients@.len(),
                self@.len() == self.clients@.len(),
                distinct(self@),
                forall|k: int| 0 <= k < i ==> self@[k].username != username@,
            decreases self.clients@.len() - i,
        {
            if self.clients[i].username == *username {
                proof {
                    assert(self@[i as int].username == username@);
                    let k = choose|k: int| 0 <= k < self@.len() && self@[k].username == username@;
                    assert(k == i);
                }
                return Some(i);
            }
            i += 1;
        }
        None
    }

    /// The names of the clients, in the order of their registration.
    pub fn get_client_list(&self) -> (list: Vec<UserName>)
        ensures
            texts(list@) == names(self@),
    {
        let mut list: Vec<UserName> = Vec::new();
        let mut i: usize = 0;
        while i < self.clients.len()
            invariant
                i <= self.clients@.len(),
                list@.len() == i,
                forall|k: int| 0 <= k < i ==> list@[k]@ == self.clients@[k].username@,
            decreases self.clients@.len() - i,
        {
            list.push(self.clients[i].username.clone());
            i += 1;
        }
        list
    }

    /// Registers a client from node `node_id` and logs it in. Refuses a
    /// name that is taken.
    pub fn register(&mut self, username: UserName, password: Password, node_id: NodeId) -> (result:
        Result<(), RegisterError>)
        requires
            old(self).wf(),
        ensures
            final(self).wf(),
            result == register_outcome(old(self)@, username@),
            final(self)@ == after_register(old(self)@, username@, password@, node_id),
    {
        match self.find(&username) {
            None => {
                let client = Client { username, password, node_id, logged: true };
                self.clients.push(client);
                proof {
                    assert(self@ =~= old(self)@.push(client@));
                }
                Ok(())
            },
            Some(_) => Err(RegisterError::AlreadyRegistered),
        }
    }

    /// Whether the client of this name is registered from `node_id` and
    /// logged in.
    pub fn is_auth(&self, username: &UserName, node_id: NodeId) -> (yes: bool)
        requires
            self.wf(),
        ensures
            yes == authenticated(self@, username@, node_id),
    {
        match self.find(username) {
            Some(i) => node_id == self.clients[i].node_id && self.clients[i].logged,
            None => false,
        }
    }

    /// Whether a message of `sender`, written from node `node_id`, can go to
    /// `recipient`, and to which node.
    pub fn can_send_message(&self, sender: UserName, node_id: NodeId, recipient: UserName) -> (result:
        Result<(NodeId, UserName), MessageError>)
        requires
            self.wf(),
        ensures
            match message_outcome(self@, sender@, node_id, recipient@) {
                Ok(to) => result is Ok && result->Ok_0.0 == to && result->Ok_0.1@ == sender@,
                Err(error) => result is Err && result->Err_0@ == error,
            },
    {
        if !self.is_auth(&sender, node_id) {
            return Err(MessageError::SenderNotLogged(sender));
        }
        match self.find(&recipient) {
            Some(i) => {
                if self.clients[i].logged {
                    Ok((self.clients[i].node_id, sender))
                } else {
                    Err(MessageError::RecipientNotLogged(recipient))
                }
            },
            None => Err(MessageError::RecipientNotRegistered(recipient)),
        }
    }

    /// Logs a client in.
    pub fn login(&mut self, username: &UserName, password: &Password) -> (result: Result<
        (),
        LoginError,
    >)
        requires
            old(self).wf(),
        ensures
            final(self).wf(),
            result == login_outcome(old(self)@, username@, password@),
            final(self)@ == after_login(old(self)@, username@, password@),
    {
        match self.find(username) {
            Some(i) => {
                if self.clients[i].logged {
                    Err(LoginError::AlreadyLogged)
                } else if self.clients[i].password != *password {
                    Err(LoginError::WrongPassword)
                } else {
                    self.set_logged(i, true);
                    Ok(())
                }
            },
            None => Err(LoginError::NotRegistered),
        }
    }

    /// Logs a client out.
    pub fn logout(&mut self, username: &UserName, node_id: NodeId) -> (result: Result<
        (),
        LogoutError,
    >)
        requires
            old(self).wf(),
        ensures
            final(self).wf(),
            result == logout_outcome(old(self)@, username@, node_id),
            final(self)@ == after_logout(old(self)@, username@, node_id),
    {
        match self.find(username) {
            Some(i) => {
                if !self.clients[i].logged {
                    return Err(LogoutError::NotLogged);
                }
                if self.clients[i].node_id != node_id {
                    return Err(LogoutError::InvalidNodeId);
                }
                self.set_logged(i, false);
                Ok(())
            },
            None => Err(LogoutError::NotRegistered),
        }
    }

    fn set_logged(&mut self, i: usize, logged: bool)
        requires
            i < old(self)@.len(),
        ensures
            final(self)@ == old(self)@.update(
                i as int,
                ClientView { logged, ..old(self)@[i as int] },
            ),
    {
        self.clients[i].logged = logged;
    }

    /// Answers a request that came from node `initiator_id`, and says to
    /// which node the response goes. What is no chat request is refused
    /// and changes nothing.
    pub fn process_assembled(&mut self, assembled: Request, initiator_id: NodeId) -> (result: Result<
        (Response, NodeId),
        ProcessError,
    >)
        requires
            old(self).wf(),
        ensures
            final(self).wf(),
            match assembled@ {
                RequestView::Chat(request) => {
                    &&& final(self)@ == after_request(old(self)@, request, initiator_id)
                    &&& result is Ok
                    &&& (result->Ok_0.0@, result->Ok_0.1) == (
                        ResponseView::Chat(response_to(old(self)@, request, initiator_id).0),
                        response_to(old(self)@, request, initiator_id).1,
                    )
                },
                RequestView::Content(_) => {
                    &&& final(self)@ == old(self)@
                    &&& result == Err::<(Response, NodeId), ProcessError>(
                        ProcessError::UnexpectedRequest,
                    )
                },
            },
    {
        match assembled {
            Request::Chat(request) => {
                let (response, dest) = self.process_request(request, initiator_id);
                Ok((Response::Chat(response), dest))
            },
            Request::Content(_) => Err(ProcessError::UnexpectedRequest),
        }
    }

    /// Answers a chat request that came from node `initiator_id`, and says
    /// to which node the response goes.
    pub fn process_request(&mut self, request: ChatRequest, initiator_id: NodeId) -> (result: (
        ChatResponse,
        NodeId,
    ))
        requires
            old(self).wf(),
        ensures
            final(self).wf(),
            final(self)@ == after_request(old(self)@, request@, initiator_id),
            (result.0@, result.1) == response_to(old(self)@, request@, initiator_id),
    {
        match request {
            ChatRequest::ClientList(username) => {
                let response = if self.is_auth(&username, initiator_id) {
                    ChatResponse::ClientList(username, self.get_client_list())
                } else {
                    ChatResponse::ClientListFailure(username, ClientListError::NotLogged)
                };
                (response, initiator_id)
            },
            ChatRequest::Message(sender, recipient, msg) => {
                match self.can_send_message(sender, initiator_id, recipient) {
                    Ok((recipient_id, sender)) => (ChatResponse::Message(sender, msg), recipient_id),
                    Err(err) => (ChatResponse::MessageFailure(err), initiator_id),
                }
            },
            ChatRequest::Register(username, password) => {
                let response = match self.register(username.clone(), password, initiator_id) {
                    Ok(_) => ChatResponse::ClientList(username, self.get_client_list()),
                    Err(err) => ChatResponse::RegisterFailure(username, err),
                };
                (response, initiator_id)
            },
            ChatRequest::Login(username, password) => {
                let response = match self.login(&username, &password) {
                    Ok(_) => ChatResponse::ClientList(username, self.get_client_list()),
                    Err(err) => ChatResponse::LoginFailure(username, err),
                };
                (response, initiator_id)
            },
            ChatRequest::Logout(username) => {
                let response = match self.logout(&username, initiator_id) {
                    Ok(_) => ChatResponse::LogoutSuccess(username),
                    Err(err) => ChatResponse::LogoutFailure(username, err),
                };
                (response, initiator_id)
            },
        }
    }
}

} // verus!
