use send::{Actor, Context, Dispatch, Framework, Receiver, Target};

/// A node that writes its label into the event it is handed.
struct Tag(u32);

impl Receiver<Vec<u32>> for Tag {
    fn receive(&mut self, message: &mut Vec<u32>, _context: &mut Context<Vec<u32>>) {
        message.push(self.0);
    }
}

fn tag(label: u32) -> Actor<Tag> {
    Actor::leaf(Tag(label))
}

#[test]
fn broadcast_visits_every_node_once_in_preorder() {
    // 0 ─┬─ 1 ─┬─ 2
    //    │     └─ 3
    //    ├─ 4 ── 5
    //    └─ 6
    let mut one = tag(1);
    one.push_children(vec![tag(2), tag(3)]);
    let mut four = tag(4);
    four.push_option(Some(tag(5)));
    four.push_option(None);
    let mut root = tag(0);
    root.push_child(one);
    root.push_child(four);
    root.push_result(Err(tag(6)));
    let mut framework = Framework::new(root);
    assert_eq!(framework.len(), 7);
    let mut trail = Vec::new();
    framework.send(&mut trail);
    assert_eq!(trail, vec![0, 1, 2, 3, 4, 5, 6]);

    let mut sub = Vec::new();
    framework.send_sub(&mut sub, 1);
    assert_eq!(sub, vec![1, 2, 3]);
    let mut one_only = Vec::new();
    framework.send_to(&mut one_only, 4);
    assert_eq!(one_only, vec![4]);
}

#[test]
fn layout_ids_follow_declared_order() {
    let mut root = tag(10);
    root.push_result(Ok(tag(11)));
    root.push_children(vec![tag(12), tag(13)]);
    let framework = Framework::new(root);
    let labels: Vec<u32> = (0..framework.len()).map(|id| framework.get(id).0).collect();
    assert_eq!(labels, vec![10, 11, 12, 13]);
}

/// Every reaction of a node, as a log of numbers.
#[derive(Debug, Clone, PartialEq)]
enum Cell {
    Active(u32),
    Passive(u32),
}

#[derive(Clone, Copy)]
enum Signal {
    Add(u32),
    Ping,
    Unheard,
}

impl Receiver<Signal> for Cell {
    fn receive(&mut self, message: &mut Signal, context: &mut Context<Signal>) {
        if let Cell::Active(v) = self {
            match message {
                Signal::Add(n) => *v += *n,
                Signal::Ping => {
                    *v += 100;
                    context.broadcast(Signal::Add(1));
                }
                Signal::Unheard => {}
            }
        }
    }
}

fn cells(framework: &Framework<Cell>) -> Vec<Cell> {
    (0..framework.len()).map(|id| framework.get(id).clone()).collect()
}

fn mixed() -> Framework<Cell> {
    let mut root = Actor::leaf(Cell::Active(0));
    root.push_child(Actor::leaf(Cell::Passive(5)));
    let mut child = Actor::leaf(Cell::Active(0));
    child.push_child(Actor::leaf(Cell::Passive(6)));
    root.push_child(child);
    Framework::new(root)
}

#[test]
fn passive_nodes_keep_their_state() {
    let mut framework = mixed();
    framework.send(&mut Signal::Add(3));
    framework.send(&mut Signal::Ping);
    framework.send_sub(&mut Signal::Ping, 2);
    assert_eq!(framework.get(1), &Cell::Passive(5));
    assert_eq!(framework.get(3), &Cell::Passive(6));
    // Each ping adds 100 to the reacting node and then 1 to every active node.
    assert_eq!(framework.get(0), &Cell::Active(3 + 100 + 2 + 1));
    assert_eq!(framework.get(2), &Cell::Active(3 + 2 + 100 + 100 + 1));
}

#[test]
fn targeted_sends_change_only_their_scope() {
    let mut framework = mixed();
    framework.send_to(&mut Signal::Add(4), 0);
    assert_eq!(
        cells(&framework),
        vec![Cell::Active(4), Cell::Passive(5), Cell::Active(0), Cell::Passive(6)]
    );
    let mut root = Actor::leaf(Cell::Active(0));
    let mut left = Actor::leaf(Cell::Active(0));
    left.push_child(Actor::leaf(Cell::Active(0)));
    root.push_child(left);
    root.push_child(Actor::leaf(Cell::Active(0)));
    let mut framework = Framework::new(root);
    framework.send_sub(&mut Signal::Add(2), 1);
    assert_eq!(
        cells(&framework),
        vec![Cell::Active(0), Cell::Active(2), Cell::Active(2), Cell::Active(0)]
    );
}

/// Records, when pinged, whether it had already been marked.
#[derive(Debug, Clone, PartialEq)]
struct Probe {
    triggers: bool,
    marked: bool,
    saw_mark: Option<bool>,
}

enum Beacon {
    Ping,
    Mark,
}

impl Receiver<Beacon> for Probe {
    fn receive(&mut self, message: &mut Beacon, context: &mut Context<Beacon>) {
        match message {
            Beacon::Ping => {
                self.saw_mark = Some(self.marked);
                if self.triggers {
                    context.broadcast(Beacon::Mark);
                }
            }
            Beacon::Mark => self.marked = true,
        }
    }
}

fn probe(triggers: bool) -> Actor<Probe> {
    Actor::leaf(Probe { triggers, marked: false, saw_mark: None })
}

#[test]
fn nested_broadcast_completes_before_next_sibling() {
    let mut root = probe(false);
    root.push_children(vec![probe(false), probe(true), probe(false)]);
    let mut framework = Framework::new(root);
    framework.send(&mut Beacon::Ping);
    let seen: Vec<Option<bool>> = (0..4).map(|id| framework.get(id).saw_mark).collect();
    assert_eq!(seen, vec![Some(false), Some(false), Some(false), Some(true)]);
    assert!((0..4).all(|id| framework.get(id).marked));
}

#[test]
fn message_nobody_handles_changes_nothing() {
    let mut framework = mixed();
    let before = cells(&framework);
    let mut signal = Signal::Unheard;
    framework.send(&mut signal);
    framework.send_sub(&mut signal, 2);
    framework.send_to(&mut signal, 1);
    assert_eq!(cells(&framework), before);
    assert!(matches!(signal, Signal::Unheard));
}

/// Threads a running sum through the traversal.
struct Weight(u64);

impl Receiver<u64> for Weight {
    fn receive(&mut self, message: &mut u64, _context: &mut Context<u64>) {
        *message += self.0;
        self.0 = *message;
    }
}

#[test]
fn event_accumulates_along_the_traversal() {
    let mut root = Actor::leaf(Weight(1));
    let mut mid = Actor::leaf(Weight(2));
    mid.push_child(Actor::leaf(Weight(3)));
    root.push_child(mid);
    root.push_child(Actor::leaf(Weight(4)));
    let mut framework = Framework::new(root);
    let mut total = 0u64;
    framework.send(&mut total);
    assert_eq!(total, 10);
    let prefix: Vec<u64> = (0..4).map(|id| framework.get(id).0).collect();
    assert_eq!(prefix, vec![1, 3, 6, 10]);
}

#[test]
fn context_records_dispatches_in_order() {
    let mut context: Context<Signal> = Context::new(3);
    assert_eq!(context.id(), 3);
    context.broadcast(Signal::Add(1));
    context.send(Signal::Add(2), 4);
    context.send_sub(Signal::Add(3), 5);
    let source = 7u32;
    context.broadcast_with(&source, |s: &u32| *s + 1, Signal::Add);
    context.send_with(&source, |s: &u32| *s * 2, Signal::Add, 1);
    context.send_sub_with(&source, |s: &u32| *s, Signal::Add, 2);
    context.dispatch_with(&source, |s: &u32| *s + 3, Signal::Add, Target::Only(0));
    let got: Vec<(u32, Target)> = context
        .requests()
        .iter()
        .map(|d: &Dispatch<Signal>| match d.message {
            Signal::Add(n) => (n, d.target),
            _ => (0, d.target),
        })
        .collect();
    assert_eq!(
        got,
        vec![
            (1, Target::All),
            (2, Target::Only(4)),
            (3, Target::Sub(5)),
            (8, Target::All),
            (14, Target::Only(1)),
            (7, Target::Sub(2)),
            (10, Target::Only(0)),
        ]
    );
    assert_eq!(context.id(), 3);
}

#[test]
fn subtree_ends_follow_layout() {
    let mut one = tag(1);
    one.push_children(vec![tag(2), tag(3)]);
    let mut root = tag(0);
    root.push_child(one);
    root.push_child(tag(4));
    let framework = Framework::new(root);
    let ends: Vec<usize> = (0..framework.len()).map(|id| framework.end_of(id)).collect();
    assert_eq!(ends, vec![5, 4, 3, 4, 5]);
}

/// A parent that, when pinged, passes the word on to its first child or to
/// its whole subtree below, addressing them from its own id.
struct Relay {
    whole_subtree: bool,
    hits: u32,
}

enum Word {
    Ping,
    Hit,
}

impl Receiver<Word> for Relay {
    fn receive(&mut self, message: &mut Word, context: &mut Context<Word>) {
        match message {
            Word::Ping => {
                if self.whole_subtree {
                    context.send_sub(Word::Hit, context.id() + 1);
                } else {
                    context.send(Word::Hit, context.id() + 1);
                }
            }
            Word::Hit => self.hits += 1,
        }
    }
}

fn relay(whole_subtree: bool) -> Actor<Relay> {
    Actor::leaf(Relay { whole_subtree, hits: 0 })
}

#[test]
fn handler_addresses_its_own_children() {
    // 0 (to child) ── 1 ── 2
    let mut one = relay(false);
    one.push_child(relay(false));
    let mut root = relay(false);
    root.push_child(one);
    let mut framework = Framework::new(root);
    framework.send_to(&mut Word::Ping, 0);
    let hits: Vec<u32> = (0..3).map(|id| framework.get(id).hits).collect();
    assert_eq!(hits, vec![0, 1, 0]);

    // 0 (to subtree) ── 1 ── 2
    let mut one = relay(false);
    one.push_child(relay(false));
    let mut root = relay(true);
    root.push_child(one);
    let mut framework = Framework::new(root);
    framework.send_to(&mut Word::Ping, 0);
    let hits: Vec<u32> = (0..3).map(|id| framework.get(id).hits).collect();
    assert_eq!(hits, vec![0, 1, 1]);
}
