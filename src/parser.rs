use vstd::prelude::*;
use vstd::string::StringExecFns;
use crate::document::{kdl_accepts, kdl_tree, parse_kdl, Diagnostic, DiagnosticView, Document, Entry, Node, Span};
use crate::text::{expand_home, expand_tilde, str_eq};

verus! {

/// One menu as written: its own selector arguments, its own selector
/// configuration overrides, its own icon directories and its items.
#[derive(Debug)]
pub struct Menu {
    pub fuzzel_args: Vec<String>,
    pub fuzzel_config: Vec<(String, String)>,
    pub icon_dirs: Vec<String>,
    pub items: Vec<Item>,
}

/// A labelled entry of a menu, with an optional icon reference.
#[derive(Debug)]
pub struct Item {
    pub name: String,
    pub icon: Option<String>,
    pub contents: ItemContents,
}

#[derive(Debug)]
pub enum ItemContents {
    Menu(Menu),
    Program(Program),
}

/// A command vector: argv[0] followed by its arguments.
#[derive(Debug)]
pub struct Program {
    pub command: Vec<String>,
}

pub open spec fn diag(message: Seq<char>, label: Seq<char>, span: Span) -> DiagnosticView {
    DiagnosticView { message, label: Some(label), span, help: None }
}

/// The end of a span, saturated at the largest offset.
pub open spec fn end_of(s: Span) -> usize {
    if s.offset + s.len <= usize::MAX {
        (s.offset + s.len) as usize
    } else {
        usize::MAX
    }
}

/// The span from the start of `first` to the end of `last`.
pub open spec fn covering(first: Span, last: Span) -> Span {
    Span {
        offset: first.offset,
        len: if end_of(last) >= first.offset {
            (end_of(last) - first.offset) as usize
        } else {
            0
        },
    }
}

/// An empty span at `at`.
pub open spec fn point(at: usize) -> Span {
    Span { offset: at, len: 0 }
}

/// The span of the name of the first named entry.
pub open spec fn first_named(entries: Seq<Entry>) -> Option<Span>
    decreases entries.len(),
{
    if entries.len() == 0 {
        None
    } else if entries[0].name is Some {
        entries[0].name
    } else {
        first_named(entries.drop_first())
    }
}

/// The first entry whose value is not a string.
pub open spec fn first_non_string(entries: Seq<Entry>) -> Option<Entry>
    decreases entries.len(),
{
    if entries.len() == 0 {
        None
    } else if entries[0].value is None {
        Some(entries[0])
    } else {
        first_non_string(entries.drop_first())
    }
}

pub open spec fn not_string(e: Entry) -> DiagnosticView {
    DiagnosticView {
        message: "argument should be a string"@,
        label: Some("this"@),
        span: e.span,
        help: Some("try wrapping it in quotes"@),
    }
}

pub open spec fn no_parameters_error(node: Node) -> Option<DiagnosticView> {
    match first_named(node.entries@) {
        Some(s) => Some(diag(node.name@ + " should not have any named parameters"@, "remove this name"@, s)),
        None => None,
    }
}

pub open spec fn no_arguments_error(node: Node) -> Option<DiagnosticView> {
    if node.entries.len() == 0 {
        None
    } else {
        Some(diag(
            node.name@ + " should not have any arguments"@,
            "these"@,
            covering(node.entries[0].span, node.entries@.last().span),
        ))
    }
}

pub open spec fn no_children_error(node: Node) -> Option<DiagnosticView> {
    match node.children {
        Some(c) => Some(diag(
            node.name@ + " should not have any children"@,
            if c.nodes.len() < 2 { "remove this"@ } else { "remove these"@ },
            c.span,
        )),
        None => None,
    }
}

pub open spec fn one_argument_result(node: Node) -> Result<Seq<char>, DiagnosticView> {
    let n = node.entries.len();
    if n == 0 {
        Err(diag(node.name@ + " should have exactly one argument"@, "here"@, point(end_of(node.name_span))))
    } else if n > 1 {
        Err(diag(
            node.name@ + " should have exactly one argument"@,
            if n < 3 { "remove this"@ } else { "remove these"@ },
            covering(node.entries[1].span, node.entries@.last().span),
        ))
    } else {
        match node.entries[0].value {
            Some(v) => Ok(v@),
            None => Err(not_string(node.entries[0])),
        }
    }
}

pub open spec fn many_arguments_result(node: Node) -> Result<Seq<Seq<char>>, DiagnosticView> {
    if node.entries.len() == 0 {
        Err(diag(node.name@ + " should have arguments"@, "here"@, point(end_of(node.name_span))))
    } else {
        match first_non_string(node.entries@) {
            Some(e) => Err(not_string(e)),
            None => Ok(node.entries@.map_values(|e: Entry| e.value->Some_0@)),
        }
    }
}

pub open spec fn children_error(node: Node) -> Option<DiagnosticView> {
    if node.children is None {
        Some(diag(
            node.name@ + " should have children"@,
            "here"@,
            point(if node.entries.len() == 0 {
                end_of(node.name_span)
            } else {
                end_of(node.entries@.last().span)
            }),
        ))
    } else {
        None
    }
}

pub fn end_of_span(s: Span) -> (r: usize)
    ensures
        r == end_of(s),
{
    if s.offset <= usize::MAX - s.len {
        s.offset + s.len
    } else {
        usize::MAX
    }
}

fn covering_span(first: Span, last: Span) -> (r: Span)
    ensures
        r == covering(first, last),
{
    let end = end_of_span(last);
    Span { offset: first.offset, len: if end >= first.offset { end - first.offset } else { 0 } }
}

fn make_diag(message: String, label: &str, span: Span) -> (r: Diagnostic)
    ensures
        r@ == diag(message@, label@, span),
{
    Diagnostic { message, label: Some(String::from_str(label)), span, help: None }
}

/// Rejects a node that carries named properties.
pub fn no_parameters(node: &Node) -> (r: Result<(), Diagnostic>)
    ensures
        match r {
            Ok(_) => no_parameters_error(*node) is None,
            Err(d) => no_parameters_error(*node) == Some(d@),
        },
{
    let mut i: usize = 0;
    assert(node.entries@.subrange(0, node.entries.len() as int) =~= node.entries@);
    while i < node.entries.len()
        invariant
            i <= node.entries.len(),
            first_named(node.entries@) == first_named(node.entries@.subrange(i as int, node.entries.len() as int)),
        decreases node.entries.len() - i,
    {
        assert(node.entries@.subrange(i as int, node.entries.len() as int).drop_first()
            =~= node.entries@.subrange(i + 1, node.entries.len() as int));
        if let Some(name) = node.entries[i].name {
            let message = node.name.clone().concat(" should not have any named parameters");
            return Err(make_diag(message, "remove this name", name));
        }
        i += 1;
    }
    Ok(())
}

/// Rejects a node that carries arguments.
pub fn no_arguments(node: &Node) -> (r: Result<(), Diagnostic>)
    ensures
        match r {
            Ok(_) => no_arguments_error(*node) is None,
            Err(d) => no_arguments_error(*node) == Some(d@),
        },
{
    let n = node.entries.len();
    if n > 0 {
        let span = covering_span(node.entries[0].span, node.entries[n - 1].span);
        let message = node.name.clone().concat(" should not have any arguments");
        return Err(make_diag(message, "these", span));
    }
    Ok(())
}

/// Rejects a node that has a block of children.
pub fn no_children(node: &Node) -> (r: Result<(), Diagnostic>)
    ensures
        match r {
            Ok(_) => no_children_error(*node) is None,
            Err(d) => no_children_error(*node) == Some(d@),
        },
{
    if let Some(children) = &node.children {
        let label = if children.nodes.len() < 2 { "remove this" } else { "remove these" };
        let message = node.name.clone().concat(" should not have any children");
        return Err(make_diag(message, label, children.span));
    }
    Ok(())
}

fn not_string_diag(e: &Entry) -> (r: Diagnostic)
    ensures
        r@ == not_string(*e),
{
    Diagnostic {
        message: String::from_str("argument should be a string"),
        label: Some(String::from_str("this")),
        span: e.span,
        help: Some(String::from_str("try wrapping it in quotes")),
    }
}

/// The single string argument of a node.
pub fn one_argument(node: &Node) -> (r: Result<String, Diagnostic>)
    ensures
        match r {
            Ok(v) => one_argument_result(*node) == Ok::<Seq<char>, DiagnosticView>(v@),
            Err(d) => one_argument_result(*node) == Err::<Seq<char>, DiagnosticView>(d@),
        },
{
    let n = node.entries.len();
    if n != 1 {
        let message = node.name.clone().concat(" should have exactly one argument");
        if n == 0 {
            return Err(make_diag(message, "here", Span { offset: end_of_span(node.name_span), len: 0 }));
        }
        let span = covering_span(node.entries[1].span, node.entries[n - 1].span);
        let label = if n < 3 { "remove this" } else { "remove these" };
        return Err(make_diag(message, label, span));
    }
    match &node.entries[0].value {
        Some(v) => Ok(v.clone()),
        None => Err(not_string_diag(&node.entries[0])),
    }
}

/// The string arguments of a node, at least one.
pub fn many_arguments(node: &Node) -> (r: Result<Vec<String>, Diagnostic>)
    ensures
        match r {
            Ok(v) => many_arguments_result(*node) == Ok::<Seq<Seq<char>>, DiagnosticView>(v.deep_view()),
            Err(d) => many_arguments_result(*node) == Err::<Seq<Seq<char>>, DiagnosticView>(d@),
        },
{
    let n = node.entries.len();
    if n == 0 {
        let message = node.name.clone().concat(" should have arguments");
        return Err(make_diag(message, "here", Span { offset: end_of_span(node.name_span), len: 0 }));
    }
    let mut args: Vec<String> = Vec::new();
    let mut i: usize = 0;
    assert(node.entries@.subrange(0, n as int) =~= node.entries@);
    while i < n
        invariant
            n == node.entries.len(),
            i <= n,
            first_non_string(node.entries@) == first_non_string(node.entries@.subrange(i as int, n as int)),
            args@.len() == i,
            forall|j: int| 0 <= j < i ==> (#[trigger] args@[j])@ == node.entries[j].value->Some_0@,
            forall|j: int| 0 <= j < i ==> (#[trigger] node.entries[j]).value is Some,
        decreases n - i,
    {
        assert(node.entries@.subrange(i as int, n as int).drop_first() =~= node.entries@.subrange(i + 1, n as int));
        match &node.entries[i].value {
            Some(v) => {
                args.push(v.clone());
            },
            None => {
                return Err(not_string_diag(&node.entries[i]));
            },
        }
        i += 1;
    }
    assert(args.deep_view() =~= node.entries@.map_values(|e: Entry| e.value->Some_0@));
    assert(first_non_string(node.entries@.subrange(n as int, n as int)) is None);
    Ok(args)
}

/// The block of children of a node, which must have one.
pub fn children(node: &Node) -> (r: Result<&Document, Diagnostic>)
    ensures
        match r {
            Ok(c) => children_error(*node) is None && node.children == Some(*c),
            Err(d) => children_error(*node) == Some(d@),
        },
{
    match &node.children {
        Some(c) => Ok(c),
        None => {
            let n = node.entries.len();
            let after = if n == 0 { end_of_span(node.name_span) } else { end_of_span(node.entries[n - 1].span) };
            let message = node.name.clone().concat(" should have children");
            Err(make_diag(message, "here", Span { offset: after, len: 0 }))
        },
    }
}

pub open spec fn first_error(a: Option<DiagnosticView>, b: Option<DiagnosticView>) -> Option<DiagnosticView> {
    if a is Some {
        a
    } else {
        b
    }
}

pub open spec fn error_of<T>(r: Result<T, DiagnosticView>) -> Option<DiagnosticView> {
    match r {
        Ok(_) => None,
        Err(d) => Some(d),
    }
}

pub open spec fn opt_view(o: Option<String>) -> Option<Seq<char>> {
    match o {
        Some(s) => Some(s@),
        None => None,
    }
}

/// Errors of a leaf node with one argument, in the order they are checked.
pub open spec fn single_leaf_error(node: Node) -> Option<DiagnosticView> {
    first_error(error_of(one_argument_result(node)), first_error(no_parameters_error(node), no_children_error(node)))
}

/// Errors of a leaf node with one or more arguments, in the order they are
/// checked.
pub open spec fn multi_leaf_error(node: Node) -> Option<DiagnosticView> {
    first_error(error_of(many_arguments_result(node)), first_error(no_parameters_error(node), no_children_error(node)))
}

/// The first error among the `icon` nodes of an item's block, from node `i` on.
pub open spec fn icon_error_from(doc: Document, i: int) -> Option<DiagnosticView>
    decreases doc.nodes.len() - i,
{
    if 0 <= i < doc.nodes.len() {
        first_error(
            if doc.nodes[i].name@ == "icon"@ { single_leaf_error(doc.nodes[i]) } else { None },
            icon_error_from(doc, i + 1),
        )
    } else {
        None
    }
}

/// The icon reference of the last `icon` node among the first `i` nodes.
pub open spec fn icon_upto(doc: Document, i: int) -> Option<Seq<char>>
    decreases i,
{
    if 0 < i <= doc.nodes.len() {
        if doc.nodes[i - 1].name@ == "icon"@ {
            match one_argument_result(doc.nodes[i - 1]) {
                Ok(v) => Some(v),
                Err(_) => None,
            }
        } else {
            icon_upto(doc, i - 1)
        }
    } else {
        None
    }
}

pub open spec fn program_node_error(node: Node) -> Option<DiagnosticView> {
    if node.name@ == "command"@ {
        multi_leaf_error(node)
    } else if node.name@ == "icon"@ {
        None
    } else {
        Some(diag("unexpected node in program: "@ + node.name@, "this"@, node.span))
    }
}

pub open spec fn program_error_from(doc: Document, i: int) -> Option<DiagnosticView>
    decreases doc.nodes.len() - i,
{
    if 0 <= i < doc.nodes.len() {
        first_error(program_node_error(doc.nodes[i]), program_error_from(doc, i + 1))
    } else {
        None
    }
}

/// The arguments of the last `command` node among the first `i` nodes.
pub open spec fn command_upto(doc: Document, i: int) -> Seq<Seq<char>>
    decreases i,
{
    if 0 < i <= doc.nodes.len() {
        if doc.nodes[i - 1].name@ == "command"@ {
            match many_arguments_result(doc.nodes[i - 1]) {
                Ok(a) => a,
                Err(_) => Seq::empty(),
            }
        } else {
            command_upto(doc, i - 1)
        }
    } else {
        Seq::empty()
    }
}

/// The first error of a program's block: a bad node, or else a missing
/// command.
pub open spec fn program_error(doc: Document) -> Option<DiagnosticView> {
    first_error(
        program_error_from(doc, 0),
        if command_upto(doc, doc.nodes.len() as int).len() == 0 {
            Some(diag("program should have a command"@, "here"@, doc.span))
        } else {
            None
        },
    )
}

/// Builds a program from its block: the last `command` node gives the
/// command vector.
pub fn parse_program_from_nodes(doc: &Document) -> (r: Result<Program, Diagnostic>)
    ensures
        match r {
            Ok(p) => program_error(*doc) is None && p.command.deep_view() == command_upto(*doc, doc.nodes.len() as int),
            Err(d) => program_error(*doc) == Some(d@),
        },
{
    let mut command: Vec<String> = Vec::new();
    let mut i: usize = 0;
    while i < doc.nodes.len()
        invariant
            i <= doc.nodes.len(),
            program_error_from(*doc, 0) == program_error_from(*doc, i as int),
            command.deep_view() == command_upto(*doc, i as int),
        decreases doc.nodes.len() - i,
    {
        let node = &doc.nodes[i];
        if str_eq(node.name.as_str(), "command") {
            match many_arguments(node) {
                Ok(args) => {
                    command = args;
                },
                Err(d) => {
                    return Err(d);
                },
            }
            if let Err(d) = no_parameters(node) {
                return Err(d);
            }
            if let Err(d) = no_children(node) {
                return Err(d);
            }
        } else if !str_eq(node.name.as_str(), "icon") {
            let message = String::from_str("unexpected node in program: ").concat(node.name.as_str());
            return Err(make_diag(message, "this", node.span));
        }
        i += 1;
    }
    if command.len() == 0 {
        return Err(make_diag(String::from_str("program should have a command"), "here", doc.span));
    }
    Ok(Program { command })
}

/// The first error of one key/value node of a `fuzzel-config` block.
pub open spec fn pair_error(kv: Node) -> Option<DiagnosticView> {
    first_error(error_of(one_argument_result(kv)), no_parameters_error(kv))
}

pub open spec fn pairs_error_from(doc: Document, i: int) -> Option<DiagnosticView>
    decreases doc.nodes.len() - i,
{
    if 0 <= i < doc.nodes.len() {
        first_error(pair_error(doc.nodes[i]), pairs_error_from(doc, i + 1))
    } else {
        None
    }
}

/// The first error of a `fuzzel-config` node: a missing block, a bad
/// key/value node, or arguments on the node itself.
pub open spec fn config_node_error(node: Node) -> Option<DiagnosticView> {
    match node.children {
        None => children_error(node),
        Some(c) => first_error(pairs_error_from(c, 0), no_arguments_error(node)),
    }
}

/// The overrides of a `fuzzel-config` block, in declaration order.
pub open spec fn pairs_of(doc: Document) -> Seq<(Seq<char>, Seq<char>)> {
    doc.nodes@.map_values(|kv: Node| (kv.name@, one_argument_result(kv)->Ok_0))
}

pub open spec fn is_item_node(node: Node) -> bool {
    node.name@ == "menu"@ || node.name@ == "program"@
}

/// The first error that one node of a menu's block raises. `icon` nodes
/// belong to the block of an item (`in_item`), where they give the item's
/// icon; at the document root they are unexpected.
pub open spec fn menu_node_error(node: Node, in_item: bool) -> Option<DiagnosticView>
    decreases node, 0int,
{
    let name = node.name@;
    if name == "fuzzel-args"@ {
        multi_leaf_error(node)
    } else if name == "fuzzel-config"@ {
        config_node_error(node)
    } else if name == "icon-dir"@ {
        single_leaf_error(node)
    } else if is_item_node(node) {
        match one_argument_result(node) {
            Err(d) => Some(d),
            Ok(_) => match node.children {
                None => children_error(node),
                Some(c) => first_error(item_error(name == "menu"@, c), no_parameters_error(node)),
            },
        }
    } else if name == "icon"@ && in_item {
        None
    } else {
        Some(diag("unexpected node in menu: "@ + name, "this"@, node.span))
    }
}

/// The first error of an item's block: its `icon` nodes first, then the
/// menu or program it declares.
pub open spec fn item_error(is_menu: bool, doc: Document) -> Option<DiagnosticView>
    decreases doc, doc.nodes.len() + 1,
{
    first_error(icon_error_from(doc, 0), if is_menu { menu_error_from(doc, 0, true) } else { program_error(doc) })
}

/// The first error among the nodes of a menu's block, from node `i` on.
pub open spec fn menu_error_from(doc: Document, i: int, in_item: bool) -> Option<DiagnosticView>
    decreases doc, doc.nodes.len() - i,
{
    if 0 <= i < doc.nodes.len() {
        first_error(menu_node_error(doc.nodes[i], in_item), menu_error_from(doc, i + 1, in_item))
    } else {
        None
    }
}

/// The arguments of the last `fuzzel-args` node among the first `i` nodes.
pub open spec fn args_upto(doc: Document, i: int) -> Seq<Seq<char>>
    decreases i,
{
    if 0 < i <= doc.nodes.len() {
        if doc.nodes[i - 1].name@ == "fuzzel-args"@ {
            match many_arguments_result(doc.nodes[i - 1]) {
                Ok(a) => a,
                Err(_) => Seq::empty(),
            }
        } else {
            args_upto(doc, i - 1)
        }
    } else {
        Seq::empty()
    }
}

/// The overrides of the last `fuzzel-config` node among the first `i` nodes.
pub open spec fn config_upto(doc: Document, i: int) -> Seq<(Seq<char>, Seq<char>)>
    decreases i,
{
    if 0 < i <= doc.nodes.len() {
        if doc.nodes[i - 1].name@ == "fuzzel-config"@ {
            match doc.nodes[i - 1].children {
                Some(c) => pairs_of(c),
                None => Seq::empty(),
            }
        } else {
            config_upto(doc, i - 1)
        }
    } else {
        Seq::empty()
    }
}

/// The directories of the `icon-dir` nodes among the first `i` nodes, in
/// order, with `~` expanded.
pub open spec fn icon_dirs_upto(doc: Document, i: int, home: Seq<char>) -> Seq<Seq<char>>
    decreases i,
{
    if 0 < i <= doc.nodes.len() {
        if doc.nodes[i - 1].name@ == "icon-dir"@ {
            icon_dirs_upto(doc, i - 1, home).push(expand_tilde(one_argument_result(doc.nodes[i - 1])->Ok_0, home))
        } else {
            icon_dirs_upto(doc, i - 1, home)
        }
    } else {
        Seq::empty()
    }
}

/// How many items the first `i` nodes declare.
pub open spec fn item_count_upto(doc: Document, i: int) -> nat
    decreases i,
{
    if 0 < i <= doc.nodes.len() {
        item_count_upto(doc, i - 1) + if is_item_node(doc.nodes[i - 1]) { 1nat } else { 0nat }
    } else {
        0
    }
}

pub open spec fn pairs_view(pairs: Seq<(String, String)>) -> Seq<(Seq<char>, Seq<char>)> {
    pairs.map_values(|p: (String, String)| (p.0@, p.1@))
}

/// `m` is the menu that an error-free block `doc` declares: the last
/// `fuzzel-args` and `fuzzel-config` win, icon directories accumulate, and
/// each `menu` or `program` node gives the next item.
pub open spec fn menu_of(doc: Document, home: Seq<char>, m: Menu) -> bool
    decreases doc, 0int,
{
    let n = doc.nodes.len() as int;
    &&& m.fuzzel_args.deep_view() == args_upto(doc, n)
    &&& pairs_view(m.fuzzel_config@) == config_upto(doc, n)
    &&& m.icon_dirs.deep_view() == icon_dirs_upto(doc, n, home)
    &&& m.items.len() == item_count_upto(doc, n)
    &&& forall|p: int| 0 <= p < n && is_item_node(doc.nodes[p]) ==> item_of(
        #[trigger] doc.nodes[p],
        home,
        m.items[item_count_upto(doc, p) as int],
    )
}

/// `item` is what the `menu` or `program` node `node` declares.
pub open spec fn item_of(node: Node, home: Seq<char>, item: Item) -> bool
    decreases node, 0int,
{
    &&& one_argument_result(node) == Ok::<Seq<char>, DiagnosticView>(item.name@)
    &&& match node.children {
        Some(c) => item_built(node.name@ == "menu"@, c, home, item),
        None => false,
    }
}

/// `item`'s icon and contents are those that the block `doc` declares.
pub open spec fn item_built(is_menu: bool, doc: Document, home: Seq<char>, item: Item) -> bool
    decreases doc, 1int,
{
    &&& opt_view(item.icon) == icon_upto(doc, doc.nodes.len() as int)
    &&& if is_menu {
        item.contents is Menu && menu_of(doc, home, item.contents->Menu_0)
    } else {
        item.contents is Program && item.contents->Program_0.command.deep_view() == command_upto(
            doc,
            doc.nodes.len() as int,
        )
    }
}

/// The node names of the grammar are pairwise distinct.
pub proof fn lemma_node_names_distinct()
    ensures
        "fuzzel-args"@ != "fuzzel-config"@,
        "fuzzel-args"@ != "icon-dir"@,
        "fuzzel-args"@ != "menu"@,
        "fuzzel-args"@ != "program"@,
        "fuzzel-args"@ != "icon"@,
        "fuzzel-config"@ != "icon-dir"@,
        "fuzzel-config"@ != "menu"@,
        "fuzzel-config"@ != "program"@,
        "fuzzel-config"@ != "icon"@,
        "icon-dir"@ != "menu"@,
        "icon-dir"@ != "program"@,
        "icon-dir"@ != "icon"@,
        "menu"@ != "program"@,
        "menu"@ != "icon"@,
        "program"@ != "icon"@,
        "command"@ != "icon"@,
{
    reveal_strlit("fuzzel-args");
    reveal_strlit("fuzzel-config");
    reveal_strlit("icon-dir");
    reveal_strlit("menu");
    reveal_strlit("program");
    reveal_strlit("icon");
    reveal_strlit("command");
    assert("fuzzel-args"@.len() == 11);
    assert("fuzzel-config"@.len() == 13);
    assert("icon-dir"@.len() == 8);
    assert("menu"@.len() == 4);
    assert("program"@.len() == 7);
    assert("icon"@.len() == 4);
    assert("command"@.len() == 7);
    assert("menu"@[0] != "icon"@[0]);
}

/// An item node comes before all the items that later nodes declare.
pub proof fn lemma_item_count_mono(doc: Document, p: int, i: int)
    requires
        0 <= p < i <= doc.nodes.len(),
        is_item_node(doc.nodes[p]),
    ensures
        item_count_upto(doc, p) < item_count_upto(doc, i),
    decreases i,
{
    if p + 1 < i {
        lemma_item_count_mono(doc, p, i - 1);
    }
}

/// Reads the key/value overrides of a `fuzzel-config` node.
pub fn parse_config_pairs(node: &Node) -> (r: Result<Vec<(String, String)>, Diagnostic>)
    ensures
        match r {
            Ok(pairs) => config_node_error(*node) is None && node.children is Some
                && pairs_view(pairs@) == pairs_of(node.children->Some_0),
            Err(d) => config_node_error(*node) == Some(d@),
        },
{
    let c = match children(node) {
        Ok(c) => c,
        Err(d) => {
            return Err(d);
        },
    };
    let mut pairs: Vec<(String, String)> = Vec::new();
    let mut k: usize = 0;
    while k < c.nodes.len()
        invariant
            node.children == Some(*c),
            k <= c.nodes.len(),
            pairs_error_from(*c, 0) == pairs_error_from(*c, k as int),
            pairs@.len() == k,
            forall|j: int| 0 <= j < k ==> (#[trigger] pairs@[j]).0@ == c.nodes[j].name@
                && pairs@[j].1@ == one_argument_result(c.nodes[j])->Ok_0,
        decreases c.nodes.len() - k,
    {
        let kv = &c.nodes[k];
        let value = match one_argument(kv) {
            Ok(v) => v,
            Err(d) => {
                return Err(d);
            },
        };
        pairs.push((kv.name.clone(), value));
        if let Err(d) = no_parameters(kv) {
            return Err(d);
        }
        k += 1;
    }
    if let Err(d) = no_arguments(node) {
        return Err(d);
    }
    assert(pairs_view(pairs@) =~= pairs_of(*c));
    Ok(pairs)
}

/// Builds the item that a `menu` or `program` node declares from its block:
/// the last `icon` node gives the icon, and the rest of the block the
/// submenu or the program.
pub fn parse_item_from_nodes(kind: &str, name: &str, doc: &Document, home: &str) -> (r: Result<Item, Diagnostic>)
    requires
        kind@ == "menu"@ || kind@ == "program"@,
    ensures
        match r {
            Ok(item) => item_error(kind@ == "menu"@, *doc) is None && item.name@ == name@
                && item_built(kind@ == "menu"@, *doc, home@, item),
            Err(d) => item_error(kind@ == "menu"@, *doc) == Some(d@),
        },
    decreases doc, 1int,
{
    let mut icon: Option<String> = None;
    let mut i: usize = 0;
    while i < doc.nodes.len()
        invariant
            i <= doc.nodes.len(),
            icon_error_from(*doc, 0) == icon_error_from(*doc, i as int),
            opt_view(icon) == icon_upto(*doc, i as int),
        decreases doc.nodes.len() - i,
    {
        let node = &doc.nodes[i];
        if str_eq(node.name.as_str(), "icon") {
            match one_argument(node) {
                Ok(v) => {
                    icon = Some(v);
                },
                Err(d) => {
                    return Err(d);
                },
            }
            if let Err(d) = no_parameters(node) {
                return Err(d);
            }
            if let Err(d) = no_children(node) {
                return Err(d);
            }
        }
        i += 1;
    }
    let contents = if str_eq(kind, "menu") {
        match parse_menu_from_nodes(doc, home, true) {
            Ok(m) => ItemContents::Menu(m),
            Err(d) => {
                return Err(d);
            },
        }
    } else {
        match parse_program_from_nodes(doc) {
            Ok(p) => ItemContents::Program(p),
            Err(d) => {
                return Err(d);
            },
        }
    };
    Ok(Item { name: String::from_str(name), icon, contents })
}

/// Builds the menu that the block `doc` declares: the document root, or the
/// block of a `menu` item (`in_item`), where `icon` nodes are the item's.
/// `home` is what `~` stands for in icon directories.
#[verifier::rlimit(40)]
pub fn parse_menu_from_nodes(doc: &Document, home: &str, in_item: bool) -> (r: Result<Menu, Diagnostic>)
    ensures
        match r {
            Ok(m) => menu_error_from(*doc, 0, in_item) is None && menu_of(*doc, home@, m),
            Err(d) => menu_error_from(*doc, 0, in_item) == Some(d@),
        },
    decreases doc, 0int,
{
    let mut fuzzel_args: Vec<String> = Vec::new();
    let mut fuzzel_config: Vec<(String, String)> = Vec::new();
    let mut icon_dirs: Vec<String> = Vec::new();
    let mut items: Vec<Item> = Vec::new();
    assert(pairs_view(fuzzel_config@) =~= Seq::empty());
    assert(fuzzel_args.deep_view() =~= Seq::empty());
    assert(icon_dirs.deep_view() =~= Seq::empty());
    let mut i: usize = 0;
    while i < doc.nodes.len()
        invariant
            i <= doc.nodes.len(),
            menu_error_from(*doc, 0, in_item) == menu_error_from(*doc, i as int, in_item),
            fuzzel_args.deep_view() == args_upto(*doc, i as int),
            pairs_view(fuzzel_config@) == config_upto(*doc, i as int),
            icon_dirs.deep_view() == icon_dirs_upto(*doc, i as int, home@),
            items.len() == item_count_upto(*doc, i as int),
            forall|p: int| 0 <= p < i && is_item_node(doc.nodes[p]) ==> item_of(
                #[trigger] doc.nodes[p],
                home@,
                items[item_count_upto(*doc, p) as int],
            ),
        decreases doc.nodes.len() - i,
    {
        let node = &doc.nodes[i];
        let name = node.name.as_str();
        proof {
            lemma_node_names_distinct();
            assert(menu_error_from(*doc, i as int, in_item) == first_error(
                menu_node_error(*node, in_item),
                menu_error_from(*doc, i + 1, in_item),
            ));
            assert(item_count_upto(*doc, i + 1) == item_count_upto(*doc, i as int) + if is_item_node(*node) {
                1nat
            } else {
                0nat
            });
        }
        if str_eq(name, "fuzzel-args") {
            match many_arguments(node) {
                Ok(args) => {
                    fuzzel_args = args;
                },
                Err(d) => {
                    return Err(d);
                },
            }
            if let Err(d) = no_parameters(node) {
                return Err(d);
            }
            if let Err(d) = no_children(node) {
                return Err(d);
            }
        } else if str_eq(name, "fuzzel-config") {
            match parse_config_pairs(node) {
                Ok(pairs) => {
                    fuzzel_config = pairs;
                },
                Err(d) => {
                    return Err(d);
                },
            }
        } else if str_eq(name, "icon-dir") {
            let path = match one_argument(node) {
                Ok(v) => expand_home(v.as_str(), home),
                Err(d) => {
                    return Err(d);
                },
            };
            if let Err(d) = no_parameters(node) {
                return Err(d);
            }
            if let Err(d) = no_children(node) {
                return Err(d);
            }
            let ghost before = icon_dirs.deep_view();
            icon_dirs.push(path);
            assert(icon_dirs.deep_view() =~= before.push(path@));
        } else if str_eq(name, "menu") || str_eq(name, "program") {
            let label = match one_argument(node) {
                Ok(v) => v,
                Err(d) => {
                    return Err(d);
                },
            };
            let block = match children(node) {
                Ok(c) => c,
                Err(d) => {
                    return Err(d);
                },
            };
            let item = match parse_item_from_nodes(name, label.as_str(), block, home) {
                Ok(item) => item,
                Err(d) => {
                    return Err(d);
                },
            };
            if let Err(d) = no_parameters(node) {
                return Err(d);
            }
            let ghost before = items@;
            items.push(item);
            proof {
                assert forall|p: int| 0 <= p < i + 1 && is_item_node(doc.nodes[p]) implies item_of(
                    #[trigger] doc.nodes[p],
                    home@,
                    items[item_count_upto(*doc, p) as int],
                ) by {
                    if p < i {
                        lemma_item_count_mono(*doc, p, i as int);
                        assert(items[item_count_upto(*doc, p) as int] == before[item_count_upto(*doc, p) as int]);
                    }
                };
            }
        } else if !(in_item && str_eq(name, "icon")) {
            let message = String::from_str("unexpected node in menu: ").concat(name);
            return Err(make_diag(message, "this", node.span));
        }
        i += 1;
    }
    Ok(Menu { fuzzel_args, fuzzel_config, icon_dirs, items })
}

/// Parses a source text into its menu tree; `home` is what `~` stands for in
/// icon directories. Text that is not a KDL document is refused with the KDL
/// parser's diagnostic; the node tree of a document is then read by
/// `parse_menu_from_nodes` as the document root.
pub fn parse_config(src: &str, home: &str) -> (r: Result<Menu, Diagnostic>)
    ensures
        !kdl_accepts(src@) ==> r is Err,
        kdl_accepts(src@) ==> match r {
            Ok(m) => menu_error_from(kdl_tree(src@), 0, false) is None && menu_of(kdl_tree(src@), home@, m),
            Err(d) => menu_error_from(kdl_tree(src@), 0, false) == Some(d@),
        },
{
    let doc = match parse_kdl(src) {
        Ok(doc) => doc,
        Err(d) => {
            return Err(d);
        },
    };
    parse_menu_from_nodes(&doc, home, false)
}

} // verus!
