//! The commands of the sink, one by one, on a document that is read back
//! with `sxd_document`.
use sxd_document::dom::{ChildOfElement as Child, ChildOfRoot as RootChild, Element};
use sxd_document::Package;
use sxd_html::{
    new_package, Attribute, DocHtmlSink, Dom, ElementFlags, Handle, NodeOrText, QualName,
    QuirksMode,
};

fn name(local: &str) -> QualName {
    QualName::new(
        None,
        String::from("http://www.w3.org/1999/xhtml"),
        String::from(local),
    )
}

fn attr(local: &str, value: &str) -> Attribute {
    Attribute {
        name: QualName::new(None, String::new(), String::from(local)),
        value: String::from(value),
    }
}

fn text(s: &str) -> NodeOrText<'static> {
    NodeOrText::AppendText(String::from(s))
}

fn node<'d>(h: &Handle<'d>) -> NodeOrText<'d> {
    NodeOrText::AppendNode(h.clone())
}

fn plain() -> ElementFlags {
    ElementFlags::default()
}

fn make<'d>(sink: &mut DocHtmlSink<'d>, local: &str) -> Handle<'d> {
    sink.create_element(name(local), vec![], plain())
}

fn element<'d>(h: &Handle<'d>) -> Element<'d> {
    *h.element_ref()
}

/// The children of an element, each as a short description.
fn shape(e: Element) -> Vec<String> {
    e.children()
        .into_iter()
        .map(|c| match c {
            Child::Element(x) => format!("<{}>", x.name().local_part()),
            Child::Text(x) => format!("text:{}", x.text()),
            Child::Comment(x) => format!("comment:{}", x.text()),
            Child::ProcessingInstruction(x) => format!("pi:{}", x.target()),
        })
        .collect()
}

#[test]
fn consecutive_text_is_one_node() {
    let mut package = Package::new();
    let mut sink = DocHtmlSink::new(Dom::open(&mut package));
    let p = make(&mut sink, "p");
    sink.append(&p, text("a"));
    let first = element(&p).children();
    sink.append(&p, text("b"));
    sink.append(&p, text("c"));
    let children = element(&p).children();
    assert_eq!(children.len(), 1);
    assert_eq!(children, first);
    assert_eq!(shape(element(&p)), vec!["text:abc"]);
}

#[test]
fn text_after_a_node_is_a_new_node() {
    let mut package = Package::new();
    let mut sink = DocHtmlSink::new(Dom::open(&mut package));
    let p = make(&mut sink, "p");
    let b = make(&mut sink, "b");
    let c = sink.create_comment(String::from("note"));
    sink.append(&p, text("a"));
    sink.append(&p, node(&b));
    sink.append(&p, text("c"));
    sink.append(&p, node(&c));
    sink.append(&p, text("d"));
    sink.append(&p, text("e"));
    assert_eq!(
        shape(element(&p)),
        vec!["text:a", "<b>", "text:c", "comment:note", "text:de"]
    );
}

#[test]
fn empty_text_is_still_a_node() {
    let mut package = Package::new();
    let mut sink = DocHtmlSink::new(Dom::open(&mut package));
    let p = make(&mut sink, "p");
    sink.append(&p, text(""));
    assert_eq!(shape(element(&p)), vec!["text:"]);
    sink.append(&p, text("x"));
    assert_eq!(shape(element(&p)), vec!["text:x"]);
}

#[test]
fn insert_before_keeps_order_and_identity() {
    let mut package = Package::new();
    let mut sink = DocHtmlSink::new(Dom::open(&mut package));
    let p = make(&mut sink, "p");
    let x = make(&mut sink, "x");
    let y = make(&mut sink, "y");
    let z = make(&mut sink, "z");
    let n = make(&mut sink, "n");
    sink.append(&p, node(&x));
    sink.append(&p, node(&y));
    sink.append(&p, node(&z));
    sink.append_before_sibling(&y, node(&n));
    assert_eq!(shape(element(&p)), vec!["<x>", "<n>", "<y>", "<z>"]);
    assert_eq!(
        element(&p).children(),
        vec![
            Child::Element(element(&x)),
            Child::Element(element(&n)),
            Child::Element(element(&y)),
            Child::Element(element(&z)),
        ]
    );
    assert_eq!(element(&n).parent().unwrap().element(), Some(element(&p)));
    assert_eq!(element(&z).parent().unwrap().element(), Some(element(&p)));
}

#[test]
fn insert_before_the_first_and_the_last_child() {
    let mut package = Package::new();
    let mut sink = DocHtmlSink::new(Dom::open(&mut package));
    let p = make(&mut sink, "p");
    let x = make(&mut sink, "x");
    let y = make(&mut sink, "y");
    let a = make(&mut sink, "a");
    let b = sink.create_comment(String::from("b"));
    sink.append(&p, node(&x));
    sink.append(&p, node(&y));
    sink.append_before_sibling(&x, node(&a));
    sink.append_before_sibling(&y, node(&b));
    assert_eq!(shape(element(&p)), vec!["<a>", "<x>", "comment:b", "<y>"]);
}

#[test]
fn insert_before_a_comment_or_an_instruction() {
    let mut package = Package::new();
    let mut sink = DocHtmlSink::new(Dom::open(&mut package));
    let p = make(&mut sink, "p");
    let c = sink.create_comment(String::from("c"));
    let i = sink.create_pi(String::from("i"), String::from("data"));
    let a = make(&mut sink, "a");
    let b = make(&mut sink, "b");
    sink.append(&p, node(&c));
    sink.append(&p, node(&i));
    sink.append_before_sibling(&i, node(&a));
    sink.append_before_sibling(&c, node(&b));
    assert_eq!(shape(element(&p)), vec!["<b>", "comment:c", "<a>", "pi:i"]);
}

#[test]
fn inserted_text_joins_the_text_before_it() {
    let mut package = Package::new();
    let mut sink = DocHtmlSink::new(Dom::open(&mut package));
    let p = make(&mut sink, "p");
    let y = make(&mut sink, "y");
    sink.append(&p, text("a"));
    sink.append(&p, node(&y));
    sink.append_before_sibling(&y, text("b"));
    assert_eq!(shape(element(&p)), vec!["text:ab", "<y>"]);
    sink.append_before_sibling(&y, text("c"));
    assert_eq!(shape(element(&p)), vec!["text:abc", "<y>"]);
}

#[test]
fn inserted_text_without_text_before_it_is_a_new_node() {
    let mut package = Package::new();
    let mut sink = DocHtmlSink::new(Dom::open(&mut package));
    let p = make(&mut sink, "p");
    let x = make(&mut sink, "x");
    let y = make(&mut sink, "y");
    sink.append(&p, node(&x));
    sink.append(&p, node(&y));
    sink.append_before_sibling(&y, text("t"));
    sink.append_before_sibling(&x, text("s"));
    assert_eq!(shape(element(&p)), vec!["text:s", "<x>", "text:t", "<y>"]);
}

#[test]
fn text_behind_the_sibling_comes_back_with_what_it_held() {
    let mut package = Package::new();
    let mut sink = DocHtmlSink::new(Dom::open(&mut package));
    let p = make(&mut sink, "p");
    let x = make(&mut sink, "x");
    let z = make(&mut sink, "z");
    let n = make(&mut sink, "n");
    sink.append(&p, node(&x));
    sink.append(&p, text("one"));
    sink.append(&p, node(&z));
    sink.append(&p, text("two"));
    sink.append_before_sibling(&x, node(&n));
    assert_eq!(
        shape(element(&p)),
        vec!["<n>", "<x>", "text:one", "<z>", "text:two"]
    );
}

#[test]
fn texts_side_by_side_behind_the_sibling_join_when_they_come_back() {
    let mut package = Package::new();
    let mut sink = DocHtmlSink::new(Dom::open(&mut package));
    let from = make(&mut sink, "from");
    let to = make(&mut sink, "to");
    let y = make(&mut sink, "y");
    let n = make(&mut sink, "n");
    sink.append(&to, node(&y));
    sink.append(&to, text("a"));
    sink.append(&from, text("b"));
    sink.reparent_children(&from, &to);
    assert_eq!(shape(element(&to)), vec!["<y>", "text:a", "text:b"]);
    sink.append_before_sibling(&y, node(&n));
    assert_eq!(shape(element(&to)), vec!["<n>", "<y>", "text:ab"]);
}

#[test]
fn a_sibling_put_before_an_earlier_one_ends_where_it_was() {
    // What is put is appended first and then appended again with the run
    // that left, so a node of that run keeps its place in the run.
    let mut package = Package::new();
    let mut sink = DocHtmlSink::new(Dom::open(&mut package));
    let p = make(&mut sink, "p");
    let x = make(&mut sink, "x");
    let y = make(&mut sink, "y");
    let z = make(&mut sink, "z");
    sink.append(&p, node(&x));
    sink.append(&p, node(&y));
    sink.append(&p, node(&z));
    sink.append_before_sibling(&y, node(&z));
    assert_eq!(shape(element(&p)), vec!["<x>", "<y>", "<z>"]);
    sink.append_before_sibling(&z, node(&x));
    assert_eq!(shape(element(&p)), vec!["<y>", "<x>", "<z>"]);
}

#[test]
fn insert_before_a_child_of_the_root() {
    let mut package = Package::new();
    {
        let mut sink = DocHtmlSink::new(Dom::open(&mut package));
        let doc = sink.get_document();
        let html = make(&mut sink, "html");
        let c = sink.create_comment(String::from("first"));
        sink.append(&doc, node(&html));
        sink.append_before_sibling(&html, node(&c));
    }
    let children = package.as_document().root().children();
    assert_eq!(children.len(), 2);
    assert_eq!(children[0].comment().unwrap().text(), "first");
    assert_eq!(
        children[1].element().unwrap().name().local_part(),
        "html"
    );
}

#[test]
fn the_root_keeps_one_element() {
    let mut package = Package::new();
    {
        let mut sink = DocHtmlSink::new(Dom::open(&mut package));
        let doc = sink.get_document();
        let a = make(&mut sink, "a");
        let c = sink.create_comment(String::from("c"));
        let b = make(&mut sink, "b");
        sink.append(&doc, node(&a));
        sink.append(&doc, node(&c));
        sink.append(&doc, node(&b));
    }
    let children = package.as_document().root().children();
    assert_eq!(children.len(), 2);
    assert!(matches!(children[0], RootChild::Comment(_)));
    assert_eq!(children[1].element().unwrap().name().local_part(), "b");
}

#[test]
fn the_document_handle_is_of_the_root() {
    let mut package = Package::new();
    {
        let mut sink = DocHtmlSink::new(Dom::open(&mut package));
        let doc = sink.get_document();
        assert!(matches!(doc, Handle::Document(_)));
        let html = make(&mut sink, "html");
        sink.append(&doc, node(&html));
        let again = sink.get_document();
        assert!(sink.same_node(&doc, &again));
    }
    let children = package.as_document().root().children();
    assert_eq!(children.len(), 1);
    assert_eq!(children[0].element().unwrap().name().local_part(), "html");
}

#[test]
fn an_appended_node_leaves_its_parent() {
    let mut package = Package::new();
    let mut sink = DocHtmlSink::new(Dom::open(&mut package));
    let a = make(&mut sink, "a");
    let b = make(&mut sink, "b");
    let x = make(&mut sink, "x");
    let y = make(&mut sink, "y");
    sink.append(&a, node(&x));
    sink.append(&a, node(&y));
    sink.append(&b, node(&x));
    assert_eq!(shape(element(&a)), vec!["<y>"]);
    assert_eq!(shape(element(&b)), vec!["<x>"]);
    sink.append(&a, node(&y));
    assert_eq!(shape(element(&a)), vec!["<y>"]);
    sink.append(&a, node(&x));
    sink.append(&a, node(&y));
    assert_eq!(shape(element(&a)), vec!["<x>", "<y>"]);
    assert_eq!(shape(element(&b)), Vec::<String>::new());
}

#[test]
fn an_element_takes_the_local_name_and_the_handle_the_whole_name() {
    let mut package = Package::new();
    let mut sink = DocHtmlSink::new(Dom::open(&mut package));
    let given = QualName::new(
        Some(String::from("svg")),
        String::from("http://www.w3.org/2000/svg"),
        String::from("circle"),
    );
    let h = sink.create_element(
        given.clone(),
        vec![],
        ElementFlags {
            template: true,
            mathml_annotation_xml_integration_point: false,
        },
    );
    let e = element(&h);
    assert_eq!(e.name().local_part(), "circle");
    assert_eq!(e.name().namespace_uri(), None);
    assert_eq!(h, Handle::Element(e, given, true));
    let expanded = sink.elem_name(&h);
    assert_eq!(expanded.ns, "http://www.w3.org/2000/svg");
    assert_eq!(expanded.local, "circle");
    assert_eq!(e.parent(), None);
    assert_eq!(e.children().len(), 0);
    assert_eq!(e.attributes().len(), 0);
}

#[test]
fn of_two_attributes_of_one_name_the_later_is_set() {
    let mut package = Package::new();
    let mut sink = DocHtmlSink::new(Dom::open(&mut package));
    let attrs = vec![
        attr("id", "one"),
        attr("class", "c"),
        Attribute {
            name: QualName::new(
                Some(String::from("x")),
                String::from("urn:other"),
                String::from("id"),
            ),
            value: String::from("two"),
        },
    ];
    let h = sink.create_element(name("p"), attrs, plain());
    let e = element(&h);
    assert_eq!(e.attribute_value("id"), Some("two"));
    assert_eq!(e.attribute_value("class"), Some("c"));
    assert_eq!(e.attributes().len(), 2);
}

#[test]
fn comments_and_instructions_hold_what_they_were_given() {
    let mut package = Package::new();
    let mut sink = DocHtmlSink::new(Dom::open(&mut package));
    let c = sink.create_comment(String::from("a comment"));
    match c {
        Handle::Comment(x) => {
            assert_eq!(x.text(), "a comment");
            assert_eq!(x.parent(), None);
        }
        _ => panic!("not a comment"),
    }
    let with = sink.create_pi(String::from("target"), String::from("data"));
    match with {
        Handle::ProcessingInstruction(x) => {
            assert_eq!(x.target(), "target");
            assert_eq!(x.value(), Some("data"));
        }
        _ => panic!("not a processing instruction"),
    }
    let without = sink.create_pi(String::from("target"), String::new());
    match without {
        Handle::ProcessingInstruction(x) => {
            assert_eq!(x.target(), "target");
            assert_eq!(x.value(), None);
        }
        _ => panic!("not a processing instruction"),
    }
}

#[test]
fn an_attribute_that_is_there_is_not_overwritten() {
    let mut package = Package::new();
    let mut sink = DocHtmlSink::new(Dom::open(&mut package));
    let h = sink.create_element(name("p"), vec![attr("id", "first")], plain());
    sink.add_attrs_if_missing(
        &h,
        vec![
            attr("id", "second"),
            attr("lang", "en"),
            attr("lang", "de"),
            attr("dir", "ltr"),
        ],
    );
    let e = element(&h);
    assert_eq!(e.attribute_value("id"), Some("first"));
    assert_eq!(e.attribute_value("lang"), Some("en"));
    assert_eq!(e.attribute_value("dir"), Some("ltr"));
    assert_eq!(e.attributes().len(), 3);
    sink.add_attrs_if_missing(&h, vec![]);
    assert_eq!(e.attributes().len(), 3);
}

#[test]
fn a_removed_node_has_no_parent() {
    let mut package = Package::new();
    let mut sink = DocHtmlSink::new(Dom::open(&mut package));
    let p = make(&mut sink, "p");
    let x = make(&mut sink, "x");
    let c = sink.create_comment(String::from("c"));
    let i = sink.create_pi(String::from("i"), String::new());
    sink.append(&p, node(&x));
    sink.append(&p, node(&c));
    sink.append(&p, node(&i));
    sink.remove_from_parent(&c);
    assert_eq!(shape(element(&p)), vec!["<x>", "pi:i"]);
    sink.remove_from_parent(&c);
    assert_eq!(shape(element(&p)), vec!["<x>", "pi:i"]);
    sink.remove_from_parent(&x);
    sink.remove_from_parent(&i);
    assert_eq!(shape(element(&p)), Vec::<String>::new());
    assert_eq!(element(&x).parent(), None);
}

#[test]
fn reparented_children_follow_those_that_were_there() {
    let mut package = Package::new();
    let mut sink = DocHtmlSink::new(Dom::open(&mut package));
    let from = make(&mut sink, "from");
    let to = make(&mut sink, "to");
    let a = make(&mut sink, "a");
    let b = make(&mut sink, "b");
    let c = make(&mut sink, "c");
    sink.append(&to, node(&a));
    sink.append(&from, node(&b));
    sink.append(&from, text("t"));
    sink.append(&from, node(&c));
    let moved = element(&from).children();
    sink.reparent_children(&from, &to);
    assert_eq!(shape(element(&from)), Vec::<String>::new());
    assert_eq!(shape(element(&to)), vec!["<a>", "<b>", "text:t", "<c>"]);
    assert_eq!(&element(&to).children()[1..], &moved[..]);
    assert_eq!(element(&b).parent().unwrap().element(), Some(element(&to)));
}

#[test]
fn reparenting_onto_itself_changes_nothing() {
    let mut package = Package::new();
    let mut sink = DocHtmlSink::new(Dom::open(&mut package));
    let p = make(&mut sink, "p");
    let a = make(&mut sink, "a");
    sink.append(&p, node(&a));
    sink.append(&p, text("t"));
    let before = element(&p).children();
    sink.reparent_children(&p, &p);
    assert_eq!(element(&p).children(), before);
    let empty = make(&mut sink, "empty");
    sink.reparent_children(&empty, &p);
    assert_eq!(element(&p).children(), before);
}

#[test]
fn a_node_goes_before_an_element_that_has_a_parent() {
    let mut package = Package::new();
    let mut sink = DocHtmlSink::new(Dom::open(&mut package));
    let p = make(&mut sink, "p");
    let table = make(&mut sink, "table");
    let fallback = make(&mut sink, "fallback");
    let n = make(&mut sink, "n");
    sink.append(&p, text("before"));
    sink.append(&p, node(&table));
    sink.append_based_on_parent_node(&table, &fallback, node(&n));
    sink.append_based_on_parent_node(&table, &fallback, text("t"));
    assert_eq!(shape(element(&p)), vec!["text:before", "<n>", "text:t", "<table>"]);
    assert_eq!(shape(element(&fallback)), Vec::<String>::new());
}

#[test]
fn a_node_goes_under_the_fallback_when_the_element_has_no_parent() {
    let mut package = Package::new();
    let mut sink = DocHtmlSink::new(Dom::open(&mut package));
    let table = make(&mut sink, "table");
    let fallback = make(&mut sink, "fallback");
    let n = make(&mut sink, "n");
    sink.append_based_on_parent_node(&table, &fallback, text("a"));
    sink.append_based_on_parent_node(&table, &fallback, text("b"));
    sink.append_based_on_parent_node(&table, &fallback, node(&n));
    assert_eq!(shape(element(&fallback)), vec!["text:ab", "<n>"]);
    assert_eq!(shape(element(&table)), Vec::<String>::new());
}

#[test]
fn handles_of_one_node_are_the_same_node() {
    let mut package = Package::new();
    let mut sink = DocHtmlSink::new(Dom::open(&mut package));
    let a = make(&mut sink, "a");
    let b = make(&mut sink, "a");
    let c = sink.create_comment(String::from("a"));
    let d = sink.create_comment(String::from("a"));
    let doc = sink.get_document();
    assert!(sink.same_node(&a, &a.clone()));
    assert!(!sink.same_node(&a, &b));
    assert!(sink.same_node(&c, &c.clone()));
    assert!(!sink.same_node(&c, &d));
    assert!(!sink.same_node(&a, &c));
    assert!(!sink.same_node(&doc, &a));
    let renamed = Handle::Element(element(&a), name("other"), true);
    assert!(sink.same_node(&a, &renamed));
}

#[test]
fn what_is_appended_to_template_contents_is_a_child_of_the_template() {
    let mut package = Package::new();
    let mut sink = DocHtmlSink::new(Dom::open(&mut package));
    let template = sink.create_element(
        name("template"),
        vec![],
        ElementFlags {
            template: true,
            mathml_annotation_xml_integration_point: false,
        },
    );
    let contents = sink.get_template_contents(&template);
    assert_eq!(contents, template);
    let p = make(&mut sink, "p");
    sink.append(&contents, node(&p));
    sink.append(&contents, text("t"));
    assert_eq!(shape(element(&template)), vec!["<p>", "text:t"]);
}

#[test]
fn a_handle_from_the_document_has_the_mark_the_element_was_made_with() {
    let mut package = Package::new();
    let mut sink = DocHtmlSink::new(Dom::open(&mut package));
    let template = sink.create_element(
        name("template"),
        vec![],
        ElementFlags {
            template: true,
            mathml_annotation_xml_integration_point: false,
        },
    );
    let other = make(&mut sink, "p");
    let inner = make(&mut sink, "b");
    sink.append(&template, node(&inner));
    sink.append(&other, text("t"));
    let derived = Handle::from_element(sink.dom(), element(&template));
    assert!(matches!(derived, Handle::Element(_, _, true)));
    assert!(sink.same_node(&derived, &template));
    let plain = Handle::from_element(sink.dom(), element(&other));
    assert!(matches!(plain, Handle::Element(_, _, false)));
    let parent = inner.parent(sink.dom()).unwrap();
    let from_parent = Handle::from_parent(sink.dom(), parent);
    assert!(matches!(from_parent, Handle::Element(e, _, true) if e == element(&template)));
    let moved = make(&mut sink, "outer");
    sink.append(&moved, node(&template));
    let child = element(&moved).children()[0];
    let from_child = Handle::from_child(
        sink.dom(),
        sxd_html::ChildOfElement::Element(child.element().unwrap()),
    );
    assert!(matches!(from_child, Handle::Element(e, _, true) if e == element(&template)));
    assert!(sink.dom().is_template(&element(&template)));
    assert!(!sink.dom().is_template(&element(&other)));
    assert!(!sink.dom().is_template(&element(&inner)));
}

#[test]
fn a_template_put_before_a_sibling_is_still_a_template() {
    let mut package = Package::new();
    let mut sink = DocHtmlSink::new(Dom::open(&mut package));
    let p = make(&mut sink, "p");
    let first = sink.create_element(
        name("template"),
        vec![],
        ElementFlags {
            template: true,
            mathml_annotation_xml_integration_point: false,
        },
    );
    let n = make(&mut sink, "n");
    sink.append(&p, node(&first));
    sink.append_before_sibling(&first, node(&n));
    assert_eq!(shape(element(&p)), vec!["<n>", "<template>"]);
    let again = Handle::from_element(sink.dom(), element(&first));
    assert_eq!(again, Handle::Element(element(&first), QualName::new(None, String::new(), String::from("template")), true));
    let contents = sink.get_template_contents(&again);
    sink.append(&contents, text("inside"));
    assert_eq!(shape(element(&first)), vec!["text:inside"]);
}

#[test]
fn a_node_is_linked_while_its_parent_holds_it() {
    let mut package = Package::new();
    let mut sink = DocHtmlSink::new(Dom::open(&mut package));
    let doc = sink.get_document();
    let a = make(&mut sink, "a");
    let b = make(&mut sink, "b");
    let c = sink.create_comment(String::from("c"));
    let x = make(&mut sink, "x");
    assert!(!a.is_linked(sink.dom()));
    sink.append(&doc, node(&c));
    sink.append(&doc, node(&a));
    sink.append(&a, node(&x));
    assert!(a.is_linked(sink.dom()));
    assert!(c.is_linked(sink.dom()));
    assert!(x.is_linked(sink.dom()));
    // the root lets `a` go, and `a` goes on recording the root
    sink.append(&doc, node(&b));
    assert!(a.parent(sink.dom()).is_some());
    assert!(!a.is_linked(sink.dom()));
    assert!(b.is_linked(sink.dom()));
    assert!(c.is_linked(sink.dom()));
    sink.remove_from_parent(&x);
    assert!(!x.is_linked(sink.dom()));
}

#[test]
fn errors_are_logged_in_order_under_the_current_line() {
    let mut package = Package::new();
    let mut sink = DocHtmlSink::new(Dom::open(&mut package));
    sink.parse_error(String::from("zero"));
    sink.set_current_line(3);
    sink.parse_error(String::from("a"));
    sink.set_current_line(7);
    sink.parse_error(String::from("b"));
    sink.parse_error(String::from("c"));
    sink.set_current_line(9);
    let errors = sink.finish();
    let seen: Vec<(u64, &str)> = errors.iter().map(|e| (e.line(), e.message())).collect();
    assert_eq!(seen, vec![(0, "zero"), (3, "a"), (7, "b"), (7, "c")]);
}

#[test]
fn a_fresh_sink_has_no_errors() {
    let mut package = Package::new();
    let sink = DocHtmlSink::new(Dom::open(&mut package));
    assert_eq!(sink.finish(), vec![]);
}

#[test]
fn doctype_and_quirks_mode_leave_the_document_alone() {
    let mut package = Package::new();
    {
        let mut sink = DocHtmlSink::new(Dom::open(&mut package));
        sink.append_doctype_to_document(
            String::from("html"),
            String::from("-//W3C//DTD HTML 4.01//EN"),
            String::from("http://www.w3.org/TR/html4/strict.dtd"),
        );
        sink.set_quirks_mode(QuirksMode::Quirks);
        sink.set_quirks_mode(QuirksMode::LimitedQuirks);
        sink.set_quirks_mode(QuirksMode::NoQuirks);
        assert_eq!(sink.finish(), vec![]);
    }
    assert_eq!(package.as_document().root().children().len(), 0);
}

#[test]
fn a_new_package_holds_a_root_and_nothing_else() {
    let mut package = new_package();
    {
        let dom = Dom::open(&mut package);
        let document = dom.document();
        assert_eq!(document.root().children().len(), 0);
        let sink = DocHtmlSink::new(dom);
        assert_eq!(sink.dom().document(), document);
    }
    assert_eq!(package.as_document().root().children().len(), 0);
}
