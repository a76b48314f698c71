//! Long runs of commands, held against a small model of the document that
//! is kept beside the sink: after every command the children of every
//! element must be what the model says.
use sxd_document::dom::{ChildOfElement as Child, ChildOfRoot as RootChild};
use sxd_document::Package;
use sxd_html::{DocHtmlSink, Dom, ElementFlags, Handle, NodeOrText, ParentOfChild, QualName};

/// One child in the model: a node, by its number, or a run of text.
#[derive(Debug, Clone, PartialEq)]
enum Item {
    Node(usize),
    Text(String),
}

/// The model: for each node its children and the parent it records. The
/// root is the node behind the last.
struct Model {
    children: Vec<Vec<Item>>,
    parent: Vec<Option<usize>>,
}

impl Model {
    fn new() -> Model {
        Model {
            children: vec![vec![]; NODES + 1],
            parent: vec![None; NODES],
        }
    }

    /// Whether a node stands among the children of the parent it records.
    fn linked(&self, c: usize) -> bool {
        match self.parent[c] {
            Some(p) => self.children[p].contains(&Item::Node(c)),
            None => false,
        }
    }

    fn unlink(&mut self, c: usize) {
        if let Some(q) = self.parent[c] {
            self.children[q].retain(|i| *i != Item::Node(c));
        }
    }

    fn push(&mut self, p: usize, item: Item) {
        match item {
            Item::Node(c) => {
                if p == ROOT && c < ELEMENTS {
                    // the root keeps one element: the others leave its
                    // children, and go on recording it
                    self.children[ROOT].retain(|i| !matches!(i, Item::Node(e) if *e < ELEMENTS));
                }
                self.unlink(c);
                self.children[p].push(Item::Node(c));
                self.parent[c] = Some(p);
            }
            Item::Text(text) => match self.children[p].last_mut() {
                Some(Item::Text(held)) => held.push_str(&text),
                _ => self.children[p].push(Item::Text(text)),
            },
        }
    }

    fn detach(&mut self, c: usize) {
        self.unlink(c);
        self.parent[c] = None;
    }

    fn insert_before(&mut self, sibling: usize, item: Item) {
        let p = self.parent[sibling].unwrap();
        let at = self.children[p]
            .iter()
            .position(|i| *i == Item::Node(sibling))
            .unwrap();
        let tail = self.children[p].split_off(at);
        for i in &tail {
            if let Item::Node(c) = i {
                self.parent[*c] = None;
            }
        }
        self.push(p, item);
        for i in tail {
            self.push(p, i);
        }
    }

    fn move_children(&mut self, from: usize, to: usize) {
        let moved = std::mem::take(&mut self.children[from]);
        for i in &moved {
            if let Item::Node(c) = i {
                self.parent[*c] = Some(to);
            }
        }
        self.children[to].extend(moved);
    }

    fn shape(&self, p: usize) -> Vec<String> {
        self.children[p]
            .iter()
            .map(|i| match i {
                Item::Node(c) => format!("n{}", c),
                Item::Text(t) => format!("text:{}", t),
            })
            .collect()
    }
}

/// A source of numbers that is the same on every run.
struct Numbers(u64);

impl Numbers {
    fn next(&mut self, below: usize) -> usize {
        self.0 = self
            .0
            .wrapping_mul(6364136223846793005)
            .wrapping_add(1442695040888963407);
        ((self.0 >> 33) as usize) % below
    }
}

fn shape(h: &Handle) -> Vec<String> {
    h.element_ref()
        .children()
        .into_iter()
        .map(|c| match c {
            Child::Element(x) => x.name().local_part().to_string(),
            Child::Text(x) => format!("text:{}", x.text()),
            Child::Comment(x) => x.text().to_string(),
            Child::ProcessingInstruction(x) => x.target().to_string(),
        })
        .collect()
}

const ELEMENTS: usize = 6;
const NODES: usize = 9;
const ROOT: usize = NODES;

/// Makes the nodes: elements first, then comments, each named by its number.
fn nodes<'d>(sink: &mut DocHtmlSink<'d>) -> Vec<Handle<'d>> {
    let mut made = vec![];
    for n in 0..NODES {
        let label = format!("n{}", n);
        if n < ELEMENTS {
            made.push(sink.create_element(
                QualName::new(None, String::new(), label),
                vec![],
                ElementFlags::default(),
            ));
        } else {
            made.push(sink.create_comment(label));
        }
    }
    made
}

fn root_shape(sink: &DocHtmlSink) -> Vec<String> {
    sink.dom()
        .document()
        .root()
        .children()
        .into_iter()
        .map(|c| match c {
            RootChild::Element(x) => x.name().local_part().to_string(),
            RootChild::Comment(x) => x.text().to_string(),
            RootChild::ProcessingInstruction(x) => x.target().to_string(),
        })
        .collect()
}

fn run(seed: u64, steps: usize, with_root: bool) {
    let mut package = Package::new();
    let mut sink = DocHtmlSink::new(Dom::open(&mut package));
    let mut handles = nodes(&mut sink);
    handles.push(sink.get_document());
    let parents = if with_root { ELEMENTS + 1 } else { ELEMENTS };
    let mut model = Model::new();
    let mut numbers = Numbers(seed);
    for step in 0..steps {
        let text = format!("{}", numbers.next(10));
        let as_text = numbers.next(3) == 0;
        let node = numbers.next(NODES);
        let mut target = numbers.next(parents);
        if target == ELEMENTS {
            target = ROOT;
        }
        let command = numbers.next(6);
        let other = numbers.next(NODES);
        let under = match command {
            0 | 1 => Some(target),
            2 => model.parent[other],
            3 => model.parent[other].or(Some(target)),
            _ => None,
        };
        let (given, item) = if as_text && under != Some(ROOT) {
            (NodeOrText::AppendText(text.clone()), Item::Text(text))
        } else {
            (NodeOrText::AppendNode(handles[node].clone()), Item::Node(node))
        };
        match command {
            0 | 1 => {
                sink.append(&handles[target], given);
                model.push(target, item);
            }
            2 => {
                if model.linked(other) {
                    sink.append_before_sibling(&handles[other], given);
                    model.insert_before(other, item);
                }
            }
            3 => {
                if model.linked(other) {
                    sink.append_based_on_parent_node(&handles[other], &handles[target], given);
                    model.insert_before(other, item);
                } else if model.parent[other].is_none() {
                    sink.append_based_on_parent_node(&handles[other], &handles[target], given);
                    model.push(target, item);
                }
            }
            4 => {
                sink.remove_from_parent(&handles[node]);
                model.detach(node);
            }
            _ => {
                let from = numbers.next(ELEMENTS);
                let to = numbers.next(ELEMENTS);
                sink.reparent_children(&handles[from], &handles[to]);
                if from != to {
                    model.move_children(from, to);
                }
            }
        }
        for e in 0..ELEMENTS {
            assert_eq!(
                shape(&handles[e]),
                model.shape(e),
                "children of n{} after step {} of run {}",
                e,
                step,
                seed
            );
        }
        assert_eq!(
            root_shape(&sink),
            model.shape(ROOT),
            "children of the root after step {} of run {}",
            step,
            seed
        );
        for n in 0..NODES {
            let found = handles[n].parent(sink.dom()).map(|p| match p {
                ParentOfChild::Element(e) => handles
                    .iter()
                    .position(|h| matches!(h, Handle::Element(x, _, _) if *x == e))
                    .unwrap(),
                ParentOfChild::Root(_) => ROOT,
            });
            assert_eq!(
                found, model.parent[n],
                "parent of n{} after step {} of run {}",
                n, step, seed
            );
        }
    }
}

#[test]
fn a_long_run_agrees_with_the_model() {
    run(1, 3000, false);
}

#[test]
fn many_short_runs_agree_with_the_model() {
    for seed in 2..200 {
        run(seed, 60, false);
    }
}

#[test]
fn a_long_run_with_the_root_agrees_with_the_model() {
    run(7, 3000, true);
}

#[test]
fn many_short_runs_with_the_root_agree_with_the_model() {
    for seed in 200..400 {
        run(seed, 60, true);
    }
}
