//! Small contracts run on the engine: a greeter, a counter and a mailing list.
use vstd::prelude::*;

verus! {

/// The greeting for `name`.
pub fn hello_name(name: &str) -> (r: String)
    ensures
        r@ == "Hello, "@ + name@,
{
    let mut result = String::from_str("Hello, ");
    result.append(name);
    result
}

fn copy_strings(v: &Vec<String>) -> (r: Vec<String>)
    ensures
        r@ == v@,
{
    let mut r: Vec<String> = Vec::new();
    let mut i: usize = 0;
    while i < v.len()
        invariant
            i <= v@.len(),
            r@ == v@.take(i as int),
        decreases v@.len() - i,
    {
        r.push(v[i].clone());
        assert(r@ =~= v@.take(i + 1));
        i = i + 1;
    }
    assert(v@.take(v@.len() as int) =~= v@);
    r
}

#[derive(Clone, Copy, Debug, PartialEq, Eq, Structural)]
pub enum ContractCallError {
    /// The contract has no method of that name.
    UnknownMethod,
}

/// A counter contract's state.
#[derive(Clone, Copy, Debug, PartialEq, Eq, Structural)]
pub struct Counter {
    pub count: i32,
}

impl Counter {
    pub fn new() -> (r: Counter)
        ensures
            r.count == 0,
    {
        Counter { count: 0 }
    }

    /// Runs the method `method`: `inc` adds one, wrapping as additions in global state do,
    /// and `get` returns the count.
    pub fn call(&mut self, method: &String) -> (r: Result<Option<i32>, ContractCallError>)
        ensures
            method@ == "inc"@ ==> r == Ok::<Option<i32>, ContractCallError>(None) && final(self).count == old(self).count.wrapping_add(1),
            method@ == "get"@ ==> r == Ok::<Option<i32>, ContractCallError>(Some(old(self).count))
                && *final(self) == *old(self),
            method@ != "inc"@ && method@ != "get"@ ==> r == Err::<Option<i32>, ContractCallError>(
                ContractCallError::UnknownMethod,
            ) && *final(self) == *old(self),
    {
        proof {
            reveal_strlit("inc");
            reveal_strlit("get");
            assert("inc"@[0] != "get"@[0]);
        }
        if method.eq(&String::from_str("inc")) {
            self.count = self.count.wrapping_add(1);
            Ok(None)
        } else if method.eq(&String::from_str("get")) {
            Ok(Some(self.count))
        } else {
            Err(ContractCallError::UnknownMethod)
        }
    }
}

/// What a mailing list method returns.
pub enum MailingListReply {
    /// The messages the subscriber's inbox starts with.
    Subscribed(Vec<String>),
    Published,
}

/// A mailing list contract's state: its subscribers, and each one's inbox.
pub struct MailingList {
    subscribers: Vec<String>,
    inboxes: Vec<Vec<String>>,
}

pub open spec fn strings(v: Seq<String>) -> Seq<Seq<char>> {
    v.map_values(|s: String| s@)
}

impl MailingList {
    pub closed spec fn wf(&self) -> bool {
        self.subscribers@.len() == self.inboxes@.len()
    }

    /// The subscribers' names, in the order they subscribed.
    pub closed spec fn spec_subscribers(&self) -> Seq<Seq<char>> {
        strings(self.subscribers@)
    }

    /// The messages in the inbox of the `i`-th subscriber.
    pub closed spec fn spec_inbox(&self, i: int) -> Seq<Seq<char>> {
        strings(self.inboxes@[i]@)
    }

    pub open spec fn is_subscribed(&self, name: Seq<char>) -> bool {
        self.spec_subscribers().contains(name)
    }

    pub fn new() -> (r: MailingList)
        ensures
            r.wf(),
            r.spec_subscribers().len() == 0,
    {
        let r = MailingList { subscribers: Vec::new(), inboxes: Vec::new() };
        assert(r.spec_subscribers() =~= Seq::<Seq<char>>::empty());
        r
    }

    pub fn subscribers(&self) -> (r: &Vec<String>)
        ensures
            strings(r@) == self.spec_subscribers(),
    {
        &self.subscribers
    }

    /// The inbox of the `i`-th subscriber.
    pub fn inbox(&self, i: usize) -> (r: &Vec<String>)
        requires
            self.wf(),
            i < self.spec_subscribers().len(),
        ensures
            strings(r@) == self.spec_inbox(i as int),
    {
        &self.inboxes[i]
    }

    fn position(&self, name: &String) -> (r: Option<usize>)
        ensures
            match r {
                Some(i) => i < self.subscribers@.len() && self.subscribers@[i as int]@ == name@,
                None => !strings(self.subscribers@).contains(name@),
            },
    {
        let mut i: usize = 0;
        while i < self.subscribers.len()
            invariant
                i <= self.subscribers@.len(),
                forall|j: int| 0 <= j < i ==> self.subscribers@[j]@ != name@,
            decreases self.subscribers@.len() - i,
        {
            if self.subscribers[i].eq(name) {
                return Some(i);
            }
            i = i + 1;
        }
        proof {
            if strings(self.subscribers@).contains(name@) {
                let j = choose|j: int| 0 <= j < self.subscribers@.len() && strings(self.subscribers@)[j] == name@;
                assert(self.subscribers@[j]@ == name@);
            }
        }
        None
    }

    /// Subscribes `name` and returns the messages its inbox starts with. A new
    /// subscriber gets an inbox holding a welcome; one already subscribed is greeted again
    /// and the list is left as it was.
    pub fn sub(&mut self, name: String) -> (r: Vec<String>)
        requires
            old(self).wf(),
        ensures
            final(self).wf(),
            old(self).is_subscribed(name@) ==> {
                &&& strings(r@) == seq!["Hello again!"@]
                &&& final(self).spec_subscribers() == old(self).spec_subscribers()
                &&& forall|i: int| 0 <= i < old(self).spec_subscribers().len() ==> final(self).spec_inbox(i) == old(self).spec_inbox(i)
            },
            !old(self).is_subscribed(name@) ==> {
                &&& strings(r@) == seq!["Welcome!"@]
                &&& final(self).spec_subscribers() == old(self).spec_subscribers().push(name@)
                &&& forall|i: int| 0 <= i < old(self).spec_subscribers().len() ==> final(self).spec_inbox(i) == old(self).spec_inbox(i)
                &&& final(self).spec_inbox(old(self).spec_subscribers().len() as int) == seq!["Welcome!"@]
            },
    {
        let found = self.position(&name);
        if let Some(i) = found {
            assert(strings(self.subscribers@)[i as int] == name@);
            let mut again: Vec<String> = Vec::new();
            again.push(String::from_str("Hello again!"));
            assert(strings(again@) =~= seq!["Hello again!"@]);
            return again;
        }
        let mut welcome: Vec<String> = Vec::new();
        welcome.push(String::from_str("Welcome!"));
        assert(strings(welcome@) =~= seq!["Welcome!"@]);
        let inbox = copy_strings(&welcome);
        let ghost old_inboxes = self.inboxes@;
        self.subscribers.push(name);
        self.inboxes.push(inbox);
        proof {
            assert(strings(self.subscribers@) =~= strings(old(self).subscribers@).push(name@));
            assert forall|i: int| 0 <= i < old_inboxes.len() implies self.inboxes@[i] == old_inboxes[i] by {}
            assert(self.inboxes@[old_inboxes.len() as int]@ == welcome@);
            assert(self.spec_inbox(old_inboxes.len() as int) == strings(welcome@));
            assert(self.spec_subscribers() == old(self).spec_subscribers().push(name@));
            assert(strings(welcome@) == seq!["Welcome!"@]);
        }
        welcome
    }

    /// Runs the method `method` with its argument: `sub` subscribes `arg`, `pub` publishes
    /// `arg` to every subscriber.
    pub fn call(&mut self, method: &String, arg: String) -> (r: Result<MailingListReply, ContractCallError>)
        requires
            old(self).wf(),
        ensures
            final(self).wf(),
            method@ == "sub"@ && old(self).is_subscribed(arg@) ==> {
                &&& r matches Ok(MailingListReply::Subscribed(first))
                &&& strings(first@) == seq!["Hello again!"@]
                &&& final(self).spec_subscribers() == old(self).spec_subscribers()
            },
            method@ == "sub"@ && !old(self).is_subscribed(arg@) ==> {
                &&& r matches Ok(MailingListReply::Subscribed(first))
                &&& strings(first@) == seq!["Welcome!"@]
                &&& final(self).spec_subscribers() == old(self).spec_subscribers().push(arg@)
                &&& final(self).spec_inbox(old(self).spec_subscribers().len() as int) == seq![
                    "Welcome!"@,
                ]
            },
            method@ == "sub"@ ==> forall|i: int|
                0 <= i < old(self).spec_subscribers().len() ==> final(self).spec_inbox(i) == old(self).spec_inbox(i),
            method@ == "pub"@ ==> {
                &&& r matches Ok(MailingListReply::Published)
                &&& final(self).spec_subscribers() == old(self).spec_subscribers()
                &&& forall|i: int|
                    0 <= i < old(self).spec_subscribers().len() ==> final(self).spec_inbox(i)
                        == old(self).spec_inbox(i).push(arg@)
            },
            method@ != "sub"@ && method@ != "pub"@ ==> {
                &&& r matches Err(ContractCallError::UnknownMethod)
                &&& final(self).spec_subscribers() == old(self).spec_subscribers()
                &&& forall|i: int|
                    0 <= i < old(self).spec_subscribers().len() ==> final(self).spec_inbox(i)
                        == old(self).spec_inbox(i)
            },
    {
        proof {
            reveal_strlit("sub");
            reveal_strlit("pub");
            assert("sub"@[0] != "pub"@[0]);
        }
        if method.eq(&String::from_str("sub")) {
            let first = self.sub(arg);
            Ok(MailingListReply::Subscribed(first))
        } else if method.eq(&String::from_str("pub")) {
            self.publish(&arg);
            Ok(MailingListReply::Published)
        } else {
            Err(ContractCallError::UnknownMethod)
        }
    }

    /// Appends `msg` to the inbox of every subscriber.
    pub fn publish(&mut self, msg: &String)
        requires
            old(self).wf(),
        ensures
            final(self).wf(),
            final(self).spec_subscribers() == old(self).spec_subscribers(),
            forall|i: int|
                0 <= i < old(self).spec_subscribers().len() ==> final(self).spec_inbox(i)
                    == old(self).spec_inbox(i).push(msg@),
    {
        let n = self.inboxes.len();
        let mut i: usize = 0;
        while i < n
            invariant
                n == self.inboxes@.len(),
                self.subscribers@ == old(self).subscribers@,
                n == old(self).inboxes@.len(),
                i <= n,
                forall|j: int| 0 <= j < i ==> strings(self.inboxes@[j]@) == strings(old(self).inboxes@[j]@).push(msg@),
                forall|j: int| i <= j < n ==> self.inboxes@[j] == old(self).inboxes@[j],
            decreases n - i,
        {
            let mut inbox = copy_strings(&self.inboxes[i]);
            inbox.push(msg.clone());
            proof {
                assert(strings(inbox@) =~= strings(old(self).inboxes@[i as int]@).push(msg@));
            }
            self.inboxes.set(i, inbox);
            i = i + 1;
        }
    }
}

} // verus!
