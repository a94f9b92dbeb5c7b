use vstd::prelude::*;
use crate::error::NetError;
use crate::state::ConnectionState;

verus! {

/// Name of the admission command.
pub const AUTH: &'static str = "AUTH";

/// Name of the command that asks for the server's resource location.
pub const RESOURCES: &'static str = "RESOURCES";

/// A named command handler. `handler` is what the owner of the dispatcher
/// runs for the command; `auth_required` keeps it from peers not yet admitted.
pub struct CmdHandler<H> {
    pub cmd: String,
    pub auth_required: bool,
    pub handler: H,
}

impl<H> CmdHandler<H> {
    /// A handler for command `cmd`.
    pub fn new(cmd: &str, auth_required: bool, handler: H) -> (r: CmdHandler<H>)
        ensures
            r.cmd@ == cmd@,
            r.auth_required == auth_required,
            r.handler == handler,
    {
        CmdHandler::from_string(cmd.to_owned(), auth_required, handler)
    }

    /// A handler for command `cmd`.
    pub fn from_string(cmd: String, auth_required: bool, handler: H) -> (r: CmdHandler<H>)
        ensures
            r.cmd == cmd,
            r.auth_required == auth_required,
            r.handler == handler,
    {
        CmdHandler { cmd, auth_required, handler }
    }
}

/// A registry of command handlers with unique names.
pub struct CmdHandlerContainer<H> {
    commands: Vec<CmdHandler<H>>,
}

impl<H> CmdHandlerContainer<H> {
    /// The registered handlers, in order of registration.
    pub closed spec fn entries(&self) -> Seq<CmdHandler<H>> {
        self.commands@
    }

    /// Whether a handler named `name` is registered.
    pub open spec fn has(&self, name: Seq<char>) -> bool {
        exists|k: int| 0 <= k < self.entries().len() && (#[trigger] self.entries()[k]).cmd@ == name
    }

    /// Handler names are unique.
    pub open spec fn wf(&self) -> bool {
        forall|a: int, b: int|
            0 <= a < self.entries().len() && 0 <= b < self.entries().len() && (
            #[trigger] self.entries()[a]).cmd@ == (#[trigger] self.entries()[b]).cmd@ ==> a == b
    }

    /// The handler that a command `name` from a peer in state `sender` runs:
    /// the one registered under that name, unless it requires admission and
    /// the peer is not `Connected`.
    pub open spec fn dispatched(&self, name: Seq<char>, sender: ConnectionState) -> Option<
        CmdHandler<H>,
    > {
        if self.has(name) {
            let h = self.entries()[choose|k: int|
                0 <= k < self.entries().len() && (#[trigger] self.entries()[k]).cmd@ == name];
            if h.auth_required && sender != ConnectionState::Connected {
                None
            } else {
                Some(h)
            }
        } else {
            None
        }
    }

    /// An empty registry.
    pub fn new() -> (r: CmdHandlerContainer<H>)
        ensures
            r.wf(),
            r.entries().len() == 0,
    {
        CmdHandlerContainer { commands: Vec::new() }
    }

    /// Registers `cmd_handler`; fails with `AlreadyRegistered` exactly when a
    /// handler of that name is registered, and then changes nothing.
    pub fn register_handler(&mut self, cmd_handler: CmdHandler<H>) -> (r: Result<(), NetError>)
        requires
            old(self).wf(),
        ensures
            final(self).wf(),
            old(self).has(cmd_handler.cmd@) ==> r == Err::<(), NetError>(
                NetError::AlreadyRegistered(cmd_handler.cmd),
            ) && final(self).entries() == old(self).entries(),
            !old(self).has(cmd_handler.cmd@) ==> r is Ok && final(self).entries() == old(
                self,
            ).entries().push(cmd_handler),
    {
        let mut k: usize = 0;
        while k < self.commands.len()
            invariant
                old(self).wf(),
                k <= self.commands@.len(),
                self.commands@ == old(self).commands@,
                forall|q: int| 0 <= q < k ==> (#[trigger] self.commands@[q]).cmd@ != cmd_handler.cmd@,
            decreases self.commands@.len() - k,
        {
            if self.commands[k].cmd == cmd_handler.cmd {
                let name = cmd_handler.cmd;
                assert(self.entries() == old(self).entries());
                return Err(NetError::AlreadyRegistered(name));
            }
            k = k + 1;
        }
        self.commands.push(cmd_handler);
        proof {
            let n = self.commands@;
            assert forall|a: int, b: int|
                0 <= a < n.len() && 0 <= b < n.len() && (#[trigger] n[a]).cmd@ == (
                #[trigger] n[b]).cmd@ implies a == b by {
                if a < n.len() - 1 && b < n.len() - 1 {
                    assert(old(self).entries()[a] == n[a]);
                    assert(old(self).entries()[b] == n[b]);
                }
            }
        }
        Ok(())
    }

    /// The handler that a command `cmd` from a peer in state `sender` runs, if
    /// any: unknown names and, for peers not `Connected`, handlers that
    /// require admission give `None`.
    pub fn handle(&self, cmd: &String, sender: ConnectionState) -> (r: Option<&CmdHandler<H>>)
        requires
            self.wf(),
        ensures
            match self.dispatched(cmd@, sender) {
                None => r is None,
                Some(h) => r == Some(&h),
            },
    {
        let mut k: usize = 0;
        while k < self.commands.len()
            invariant
                self.wf(),
                k <= self.commands@.len(),
                forall|q: int| 0 <= q < k ==> (#[trigger] self.commands@[q]).cmd@ != cmd@,
            decreases self.commands@.len() - k,
        {
            let h = &self.commands[k];
            if h.cmd == *cmd {
                proof {
                    assert(self.entries()[k as int].cmd@ == cmd@);
                    assert(self.has(cmd@));
                    let c = choose|q: int|
                        0 <= q < self.entries().len() && (#[trigger] self.entries()[q]).cmd@
                            == cmd@;
                    assert(c == k);
                }
                if h.auth_required && !sender.is_connected() {
                    return None;
                }
                return Some(h);
            }
            k = k + 1;
        }
        None
    }
}

/// An unknown command runs no handler; a command runs only the handler
/// registered under its name; a handler that requires admission never runs
/// for a peer that is not `Connected`.
pub proof fn lemma_dispatch_gates<H>(c: CmdHandlerContainer<H>, name: Seq<char>, sender: ConnectionState)
    ensures
        !c.has(name) ==> c.dispatched(name, sender) is None,
        c.dispatched(name, sender) matches Some(h) ==> h.cmd@ == name && (h.auth_required
            ==> sender == ConnectionState::Connected),
{
    if c.has(name) {
        let k = choose|k: int| 0 <= k < c.entries().len() && (#[trigger] c.entries()[k]).cmd@ == name;
        assert(c.entries()[k].cmd@ == name);
    }
}

} // verus!
