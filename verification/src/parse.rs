//! The structured form of a Java Edition status document. The JSON text a
//! server sends is decoded outside this crate; these types carry the
//! result, and the description, which servers send either as a bare
//! string or as a styled object tree, is normalised here.
use vstd::prelude::*;

verus! {

/// A Java Edition server's status document.
#[derive(Debug, Hash, PartialEq, Eq)]
pub struct JavaServerInfo {
    pub version: Option<ServerVersion>,
    pub players: Option<ServerPlayers>,
    pub description: TextComponent,
    pub favicon: Option<String>,
    pub mod_info: Option<ServerModInfo>,
    /// Servers with the No Chat Reports mod installed set this to `true`
    /// to say that chat sent there cannot be reported.
    pub prevents_chat_reports: Option<bool>,
    /// Whether the server supports chat preview.
    pub previews_chat: Option<bool>,
    /// Whether the server refuses chat messages that cannot be reported.
    pub enforces_secure_chat: Option<bool>,
}

/// The server software's name and protocol number.
#[derive(Debug, Hash, Clone, PartialEq, Eq)]
pub struct ServerVersion {
    pub name: String,
    pub protocol: u32,
}

/// Player counts, with an optional sample of who is online.
#[derive(Debug, Hash, Clone, PartialEq, Eq)]
pub struct ServerPlayers {
    pub max: u32,
    pub online: u32,
    pub sample: Option<Vec<ServerPlayersSample>>,
}

/// Basic information about one player on a server.
#[derive(Debug, Hash, Clone, PartialEq, Eq)]
pub struct ServerPlayersSample {
    /// The player's username.
    pub name: Option<String>,
    /// The player's UUID.
    pub id: Option<String>,
}

impl ServerPlayersSample {
    /// Whether the server hides this player's identity and reports
    /// placeholder information: the id is absent or the all-zero UUID.
    pub fn is_anonymous(&self) -> (r: bool)
        ensures
            r == match self.id {
                Option::None => true,
                Option::Some(id) => id@ == "00000000-0000-0000-0000-000000000000"@,
            },
    {
        match &self.id {
            None => true,
            Some(id) => {
                let zero = String::from_str("00000000-0000-0000-0000-000000000000");
                id.eq(&zero)
            },
        }
    }
}

/// The mod loader a server runs, and the mods it reports.
#[derive(Debug, Hash, Clone, PartialEq, Eq)]
pub struct ServerModInfo {
    pub loader_type: String,
    pub mod_list: Vec<ServerMod>,
}

/// One mod a server reports.
#[derive(Debug, Hash, Clone, PartialEq, Eq)]
pub struct ServerMod {
    pub mod_id: String,
    pub version: String,
}

/// A server's description: a bare string, one styled node, or a list of
/// components.
#[derive(Debug, Hash, PartialEq, Eq)]
pub enum TextComponent {
    Plain(String),
    Fancy(FancyText),
    Extra(Vec<TextComponent>),
}

/// One styled node of a description tree.
#[derive(Debug, Hash, PartialEq, Eq)]
pub struct FancyText {
    pub text: Option<String>,
    pub color: Option<String>,
    pub bold: Option<bool>,
    pub italic: Option<bool>,
    pub underlined: Option<bool>,
    pub strikethrough: Option<bool>,
    pub obfuscated: Option<bool>,
    pub extra: Option<Vec<TextComponent>>,
}

/// The mathematical shape of a description node.
pub enum TextComponentView {
    Plain(Seq<char>),
    Fancy(FancyTextView),
    Extra(Seq<TextComponentView>),
}

/// The mathematical shape of a styled node.
pub struct FancyTextView {
    pub text: Option<Seq<char>>,
    pub color: Option<Seq<char>>,
    pub bold: Option<bool>,
    pub italic: Option<bool>,
    pub underlined: Option<bool>,
    pub strikethrough: Option<bool>,
    pub obfuscated: Option<bool>,
    pub extra: Option<Seq<TextComponentView>>,
}

/// The view of one description node.
pub open spec fn component_view(t: TextComponent) -> TextComponentView
    decreases t,
{
    match t {
        TextComponent::Plain(s) => TextComponentView::Plain(s@),
        TextComponent::Fancy(f) => TextComponentView::Fancy(fancy_view(f)),
        TextComponent::Extra(v) => TextComponentView::Extra(components_view(v@)),
    }
}

/// The views of a sequence of description nodes, in order.
pub open spec fn components_view(s: Seq<TextComponent>) -> Seq<TextComponentView>
    decreases s,
{
    if s.len() == 0 {
        Seq::empty()
    } else {
        seq![component_view(s[0])] + components_view(s.drop_first())
    }
}

/// The view of one styled node.
pub open spec fn fancy_view(f: FancyText) -> FancyTextView
    decreases f,
{
    FancyTextView {
        text: match f.text {
            Option::Some(s) => Option::Some(s@),
            Option::None => Option::None,
        },
        color: match f.color {
            Option::Some(s) => Option::Some(s@),
            Option::None => Option::None,
        },
        bold: f.bold,
        italic: f.italic,
        underlined: f.underlined,
        strikethrough: f.strikethrough,
        obfuscated: f.obfuscated,
        extra: match f.extra {
            Option::Some(v) => Option::Some(components_view(v@)),
            Option::None => Option::None,
        },
    }
}

impl View for TextComponent {
    type V = TextComponentView;

    open spec fn view(&self) -> TextComponentView {
        component_view(*self)
    }
}

impl View for FancyText {
    type V = FancyTextView;

    open spec fn view(&self) -> FancyTextView {
        fancy_view(*self)
    }
}

/// A sequence of nodes views pointwise.
pub proof fn lemma_components_view(s: Seq<TextComponent>)
    ensures
        components_view(s).len() == s.len(),
        forall|i: int| 0 <= i < s.len() ==> components_view(s)[i] == component_view(s[i]),
    decreases s.len(),
{
    if s.len() > 0 {
        lemma_components_view(s.drop_first());
    }
}

/// Views distribute over concatenation of node sequences.
pub proof fn lemma_components_view_concat(a: Seq<TextComponent>, b: Seq<TextComponent>)
    ensures
        components_view(a + b) == components_view(a) + components_view(b),
{
    lemma_components_view(a);
    lemma_components_view(b);
    lemma_components_view(a + b);
    assert(components_view(a + b) =~= components_view(a) + components_view(b));
}

/// A styled node with every attribute absent.
pub open spec fn empty_fancy_view() -> FancyTextView {
    FancyTextView {
        text: Option::None,
        color: Option::None,
        bold: Option::None,
        italic: Option::None,
        underlined: Option::None,
        strikethrough: Option::None,
        obfuscated: Option::None,
        extra: Option::None,
    }
}

/// Normalise a description node to a single styled node: a bare string
/// becomes its text, a styled node stays, and a list folds into its first
/// element with the remaining components appended to that element's
/// children.
pub open spec fn fancy_of(t: TextComponentView) -> FancyTextView
    decreases t,
{
    match t {
        TextComponentView::Plain(s) => FancyTextView {
            text: Option::Some(s),
            ..empty_fancy_view()
        },
        TextComponentView::Fancy(f) => f,
        TextComponentView::Extra(cs) => {
            if cs.len() == 0 {
                empty_fancy_view()
            } else {
                let first = fancy_of(cs[0]);
                FancyTextView {
                    extra: Option::Some(
                        match first.extra {
                            Option::Some(e) => e + cs.skip(1),
                            Option::None => cs.skip(1),
                        },
                    ),
                    ..first
                }
            }
        },
    }
}

impl FancyText {
    /// Normalise a description to one styled node, as `fancy_of` says.
    pub fn from_component(value: TextComponent) -> (r: FancyText)
        ensures
            r@ == fancy_of(value@),
        decreases value,
    {
        match value {
            TextComponent::Plain(text) => FancyText {
                text: Some(text),
                color: None,
                bold: None,
                italic: None,
                underlined: None,
                strikethrough: None,
                obfuscated: None,
                extra: None,
            },
            TextComponent::Fancy(f) => f,
            TextComponent::Extra(mut components) => {
                if components.len() == 0 {
                    proof {
                        assert(components_view(components@) =~= Seq::<TextComponentView>::empty());
                    }
                    FancyText {
                        text: None,
                        color: None,
                        bold: None,
                        italic: None,
                        underlined: None,
                        strikethrough: None,
                        obfuscated: None,
                        extra: None,
                    }
                } else {
                    let ghost orig = components@;
                    let ghost cs = components_view(orig);
                    proof {
                        lemma_components_view(orig);
                    }
                    let first_comp = components.remove(0);
                    assert(components@ =~= orig.drop_first());
                    let mut first = FancyText::from_component(first_comp);
                    let mut new_extra: Vec<TextComponent> = match first.extra {
                        Some(e) => e,
                        None => Vec::new(),
                    };
                    let ghost had = new_extra@;
                    new_extra.append(&mut components);
                    first.extra = Some(new_extra);
                    proof {
                        lemma_components_view_concat(had, orig.drop_first());
                        lemma_components_view(orig.drop_first());
                        assert(components_view(orig.drop_first()) =~= cs.skip(1));
                        assert(first@.extra matches Option::Some(e) && e =~= match fancy_of(
                            cs[0],
                        ).extra {
                            Option::Some(e0) => e0 + cs.skip(1),
                            Option::None => cs.skip(1),
                        });
                        assert(first@ == fancy_of(TextComponentView::Extra(cs)));
                    }
                    first
                }
            },
        }
    }
}

} // verus!
