//! Presentation variants of the components and the attribute values they
//! render as.

use vstd::prelude::*;
use crate::text::{decimal, push_decimal, push_str};

verus! {

/// Which side of an accordion trigger its chevron sits on.
#[derive(Clone, Copy, PartialEq, Eq, Structural, Debug)]
pub enum AccordionChevronPosition {
    Right,
    Left,
}

impl AccordionChevronPosition {
    /// The value written as its `data-chevron-position` attribute.
    pub fn as_str(&self) -> (r: &'static str)
        ensures
            *self == AccordionChevronPosition::Right ==> r@ == "right"@,
            *self == AccordionChevronPosition::Left ==> r@ == "left"@,
    {
        match self {
            AccordionChevronPosition::Right => "right",
            AccordionChevronPosition::Left => "left",
        }
    }
}

impl Default for AccordionChevronPosition {
    fn default() -> (r: Self)
        ensures
            r == AccordionChevronPosition::Right,
    {
        AccordionChevronPosition::Right
    }
}

/// Visual variant of an alert.
#[derive(Clone, Copy, PartialEq, Eq, Structural, Debug)]
pub enum AlertVariant {
    Default,
    Destructive,
    Info,
    Success,
}

impl AlertVariant {
    /// The value written as its `data-variant` attribute.
    pub fn class(&self) -> (r: &'static str)
        ensures
            *self == AlertVariant::Default ==> r@ == "default"@,
            *self == AlertVariant::Destructive ==> r@ == "destructive"@,
            *self == AlertVariant::Info ==> r@ == "info"@,
            *self == AlertVariant::Success ==> r@ == "success"@,
    {
        match self {
            AlertVariant::Default => "default",
            AlertVariant::Destructive => "destructive",
            AlertVariant::Info => "info",
            AlertVariant::Success => "success",
        }
    }
}

impl Default for AlertVariant {
    fn default() -> (r: Self)
        ensures
            r == AlertVariant::Default,
    {
        AlertVariant::Default
    }
}

/// Visual variant of a badge.
#[derive(Clone, Copy, PartialEq, Eq, Structural, Debug)]
pub enum BadgeVariant {
    Primary,
    Secondary,
    Destructive,
    Outline,
}

impl BadgeVariant {
    /// The value written as its `data-style` attribute.
    pub fn class(&self) -> (r: &'static str)
        ensures
            *self == BadgeVariant::Primary ==> r@ == "primary"@,
            *self == BadgeVariant::Secondary ==> r@ == "secondary"@,
            *self == BadgeVariant::Destructive ==> r@ == "destructive"@,
            *self == BadgeVariant::Outline ==> r@ == "outline"@,
    {
        match self {
            BadgeVariant::Primary => "primary",
            BadgeVariant::Secondary => "secondary",
            BadgeVariant::Destructive => "destructive",
            BadgeVariant::Outline => "outline",
        }
    }
}

impl Default for BadgeVariant {
    fn default() -> (r: Self)
        ensures
            r == BadgeVariant::Primary,
    {
        BadgeVariant::Primary
    }
}

/// Layout direction of a button group.
#[derive(Clone, Copy, PartialEq, Eq, Structural, Debug)]
pub enum ButtonGroupOrientation {
    Horizontal,
    Vertical,
}

impl ButtonGroupOrientation {
    /// The value written as its `data-orientation` attribute.
    pub fn as_str(&self) -> (r: &'static str)
        ensures
            *self == ButtonGroupOrientation::Horizontal ==> r@ == "horizontal"@,
            *self == ButtonGroupOrientation::Vertical ==> r@ == "vertical"@,
    {
        match self {
            ButtonGroupOrientation::Horizontal => "horizontal",
            ButtonGroupOrientation::Vertical => "vertical",
        }
    }
}

impl Default for ButtonGroupOrientation {
    fn default() -> (r: Self)
        ensures
            r == ButtonGroupOrientation::Horizontal,
    {
        ButtonGroupOrientation::Horizontal
    }
}

/// Layout of a collapsible trigger.
#[derive(Clone, Copy, PartialEq, Eq, Structural, Debug)]
pub enum CollapsibleTriggerVariant {
    Default,
    InlineActions,
}

impl CollapsibleTriggerVariant {
    /// The value written as its `data-variant` attribute.
    pub fn as_str(&self) -> (r: &'static str)
        ensures
            *self == CollapsibleTriggerVariant::Default ==> r@ == "default"@,
            *self == CollapsibleTriggerVariant::InlineActions ==> r@ == "inline-actions"@,
    {
        match self {
            CollapsibleTriggerVariant::Default => "default",
            CollapsibleTriggerVariant::InlineActions => "inline-actions",
        }
    }
}

impl Default for CollapsibleTriggerVariant {
    fn default() -> (r: Self)
        ensures
            r == CollapsibleTriggerVariant::Default,
    {
        CollapsibleTriggerVariant::Default
    }
}

/// The edge a sheet slides in from.
#[derive(Clone, Copy, PartialEq, Eq, Structural, Debug)]
pub enum SheetSide {
    Top,
    Right,
    Bottom,
    Left,
}

impl SheetSide {
    /// The value written as its `data-side` attribute.
    pub fn as_str(&self) -> (r: &'static str)
        ensures
            *self == SheetSide::Top ==> r@ == "top"@,
            *self == SheetSide::Right ==> r@ == "right"@,
            *self == SheetSide::Bottom ==> r@ == "bottom"@,
            *self == SheetSide::Left ==> r@ == "left"@,
    {
        match self {
            SheetSide::Top => "top",
            SheetSide::Right => "right",
            SheetSide::Bottom => "bottom",
            SheetSide::Left => "left",
        }
    }
}

impl Default for SheetSide {
    fn default() -> (r: Self)
        ensures
            r == SheetSide::Right,
    {
        SheetSide::Right
    }
}

/// Visual variant of a tab list.
#[derive(Clone, Copy, PartialEq, Eq, Structural, Debug)]
pub enum TabsVariant {
    Default,
    Outline,
    Pills,
    GhostStyle,
}

impl TabsVariant {
    /// The value written as its `data-variant` attribute.
    pub fn as_str(&self) -> (r: &'static str)
        ensures
            *self == TabsVariant::Default ==> r@ == "default"@,
            *self == TabsVariant::Outline ==> r@ == "outline"@,
            *self == TabsVariant::Pills ==> r@ == "pills"@,
            *self == TabsVariant::GhostStyle ==> r@ == "ghost"@,
    {
        match self {
            TabsVariant::Default => "default",
            TabsVariant::Outline => "outline",
            TabsVariant::Pills => "pills",
            TabsVariant::GhostStyle => "ghost",
        }
    }
}

impl Default for TabsVariant {
    fn default() -> (r: Self)
        ensures
            r == TabsVariant::Default,
    {
        TabsVariant::Default
    }
}

/// Visual variant of a textarea.
#[derive(Clone, Copy, PartialEq, Eq, Structural, Debug)]
pub enum TextareaVariant {
    Default,
    Fade,
    Outline,
    GhostStyle,
}

impl TextareaVariant {
    /// The value written as its `data-style` attribute.
    pub fn class(&self) -> (r: &'static str)
        ensures
            *self == TextareaVariant::Default ==> r@ == "default"@,
            *self == TextareaVariant::Fade ==> r@ == "fade"@,
            *self == TextareaVariant::Outline ==> r@ == "outline"@,
            *self == TextareaVariant::GhostStyle ==> r@ == "ghost"@,
    {
        match self {
            TextareaVariant::Default => "default",
            TextareaVariant::Fade => "fade",
            TextareaVariant::Outline => "outline",
            TextareaVariant::GhostStyle => "ghost",
        }
    }
}

impl Default for TextareaVariant {
    fn default() -> (r: Self)
        ensures
            r == TextareaVariant::Default,
    {
        TextareaVariant::Default
    }
}

/// Visual variant of the shared input shell.
#[derive(Clone, Copy, PartialEq, Eq, Structural, Debug)]
pub enum InputVariant {
    Default,
    Filled,
    Unstyled,
}

impl InputVariant {
    /// The value written as its `data-variant` attribute.
    pub fn as_str(&self) -> (r: &'static str)
        ensures
            *self == InputVariant::Default ==> r@ == "default"@,
            *self == InputVariant::Filled ==> r@ == "filled"@,
            *self == InputVariant::Unstyled ==> r@ == "unstyled"@,
    {
        match self {
            InputVariant::Default => "default",
            InputVariant::Filled => "filled",
            InputVariant::Unstyled => "unstyled",
        }
    }
}

impl Default for InputVariant {
    fn default() -> (r: Self)
        ensures
            r == InputVariant::Default,
    {
        InputVariant::Default
    }
}

/// Preset size of the shared input shell.
#[derive(Clone, Copy, PartialEq, Eq, Structural, Debug)]
pub enum InputSize {
    Sm,
    Md,
    Lg,
}

impl InputSize {
    /// The value written as its `data-size` attribute.
    pub fn as_str(&self) -> (r: &'static str)
        ensures
            *self == InputSize::Sm ==> r@ == "sm"@,
            *self == InputSize::Md ==> r@ == "md"@,
            *self == InputSize::Lg ==> r@ == "lg"@,
    {
        match self {
            InputSize::Sm => "sm",
            InputSize::Md => "md",
            InputSize::Lg => "lg",
        }
    }
}

impl Default for InputSize {
    fn default() -> (r: Self)
        ensures
            r == InputSize::Md,
    {
        InputSize::Md
    }
}

/// Preset corner radius of the shared input shell.
#[derive(Clone, Copy, PartialEq, Eq, Structural, Debug)]
pub enum InputRadius {
    Sm,
    Md,
    Pill,
}

impl InputRadius {
    /// The value written as its `data-radius` attribute.
    pub fn as_str(&self) -> (r: &'static str)
        ensures
            *self == InputRadius::Sm ==> r@ == "sm"@,
            *self == InputRadius::Md ==> r@ == "md"@,
            *self == InputRadius::Pill ==> r@ == "pill"@,
    {
        match self {
            InputRadius::Sm => "sm",
            InputRadius::Md => "md",
            InputRadius::Pill => "pill",
        }
    }
}

impl Default for InputRadius {
    fn default() -> (r: Self)
        ensures
            r == InputRadius::Md,
    {
        InputRadius::Md
    }
}

/// Whether a sidebar is expanded or collapsed.
#[derive(Clone, Copy, PartialEq, Eq, Structural, Debug)]
pub enum SidebarState {
    Expanded,
    Collapsed,
}

impl SidebarState {
    /// The value written as its `data-state` attribute.
    pub fn as_str(&self) -> (r: &'static str)
        ensures
            *self == SidebarState::Expanded ==> r@ == "expanded"@,
            *self == SidebarState::Collapsed ==> r@ == "collapsed"@,
    {
        match self {
            SidebarState::Expanded => "expanded",
            SidebarState::Collapsed => "collapsed",
        }
    }
}

impl Default for SidebarState {
    fn default() -> (r: Self)
        ensures
            r == SidebarState::Expanded,
    {
        SidebarState::Expanded
    }
}

/// The edge a sidebar sits on.
#[derive(Clone, Copy, PartialEq, Eq, Structural, Debug)]
pub enum SidebarSide {
    Left,
    Right,
}

impl SidebarSide {
    /// The value written as its `data-side` attribute.
    pub fn as_str(&self) -> (r: &'static str)
        ensures
            *self == SidebarSide::Left ==> r@ == "left"@,
            *self == SidebarSide::Right ==> r@ == "right"@,
    {
        match self {
            SidebarSide::Left => "left",
            SidebarSide::Right => "right",
        }
    }
}

impl Default for SidebarSide {
    fn default() -> (r: Self)
        ensures
            r == SidebarSide::Left,
    {
        SidebarSide::Left
    }
}

/// Visual variant of a sidebar.
#[derive(Clone, Copy, PartialEq, Eq, Structural, Debug)]
pub enum SidebarVariant {
    Sidebar,
    Floating,
    Inset,
}

impl SidebarVariant {
    /// The value written as its `data-variant` attribute.
    pub fn as_str(&self) -> (r: &'static str)
        ensures
            *self == SidebarVariant::Sidebar ==> r@ == "sidebar"@,
            *self == SidebarVariant::Floating ==> r@ == "floating"@,
            *self == SidebarVariant::Inset ==> r@ == "inset"@,
    {
        match self {
            SidebarVariant::Sidebar => "sidebar",
            SidebarVariant::Floating => "floating",
            SidebarVariant::Inset => "inset",
        }
    }
}

impl Default for SidebarVariant {
    fn default() -> (r: Self)
        ensures
            r == SidebarVariant::Sidebar,
    {
        SidebarVariant::Sidebar
    }
}

/// How a sidebar collapses.
#[derive(Clone, Copy, PartialEq, Eq, Structural, Debug)]
pub enum SidebarCollapsible {
    Offcanvas,
    Icon,
    NoCollapse,
}

impl SidebarCollapsible {
    /// The value written as its `data-collapsible` attribute.
    pub fn as_str(&self) -> (r: &'static str)
        ensures
            *self == SidebarCollapsible::Offcanvas ==> r@ == "offcanvas"@,
            *self == SidebarCollapsible::Icon ==> r@ == "icon"@,
            *self == SidebarCollapsible::NoCollapse ==> r@ == "none"@,
    {
        match self {
            SidebarCollapsible::Offcanvas => "offcanvas",
            SidebarCollapsible::Icon => "icon",
            SidebarCollapsible::NoCollapse => "none",
        }
    }
}

impl Default for SidebarCollapsible {
    fn default() -> (r: Self)
        ensures
            r == SidebarCollapsible::Offcanvas,
    {
        SidebarCollapsible::Offcanvas
    }
}

/// Visual variant of a sidebar menu button.
#[derive(Clone, Copy, PartialEq, Eq, Structural, Debug)]
pub enum SidebarMenuButtonVariant {
    Default,
    Outline,
}

impl SidebarMenuButtonVariant {
    /// The value written as its `data-variant` attribute.
    pub fn as_str(&self) -> (r: &'static str)
        ensures
            *self == SidebarMenuButtonVariant::Default ==> r@ == "default"@,
            *self == SidebarMenuButtonVariant::Outline ==> r@ == "outline"@,
    {
        match self {
            SidebarMenuButtonVariant::Default => "default",
            SidebarMenuButtonVariant::Outline => "outline",
        }
    }
}

impl Default for SidebarMenuButtonVariant {
    fn default() -> (r: Self)
        ensures
            r == SidebarMenuButtonVariant::Default,
    {
        SidebarMenuButtonVariant::Default
    }
}

/// Size of a sidebar menu button.
#[derive(Clone, Copy, PartialEq, Eq, Structural, Debug)]
pub enum SidebarMenuButtonSize {
    Default,
    Sm,
    Lg,
}

impl SidebarMenuButtonSize {
    /// The value written as its `data-size` attribute.
    pub fn as_str(&self) -> (r: &'static str)
        ensures
            *self == SidebarMenuButtonSize::Default ==> r@ == "default"@,
            *self == SidebarMenuButtonSize::Sm ==> r@ == "sm"@,
            *self == SidebarMenuButtonSize::Lg ==> r@ == "lg"@,
    {
        match self {
            SidebarMenuButtonSize::Default => "default",
            SidebarMenuButtonSize::Sm => "sm",
            SidebarMenuButtonSize::Lg => "lg",
        }
    }
}

impl Default for SidebarMenuButtonSize {
    fn default() -> (r: Self)
        ensures
            r == SidebarMenuButtonSize::Default,
    {
        SidebarMenuButtonSize::Default
    }
}

/// Size of a sidebar sub-menu button.
#[derive(Clone, Copy, PartialEq, Eq, Structural, Debug)]
pub enum SidebarMenuSubButtonSize {
    Sm,
    Md,
}

impl SidebarMenuSubButtonSize {
    /// The value written as its `data-size` attribute.
    pub fn as_str(&self) -> (r: &'static str)
        ensures
            *self == SidebarMenuSubButtonSize::Sm ==> r@ == "sm"@,
            *self == SidebarMenuSubButtonSize::Md ==> r@ == "md"@,
    {
        match self {
            SidebarMenuSubButtonSize::Sm => "sm",
            SidebarMenuSubButtonSize::Md => "md",
        }
    }
}

impl Default for SidebarMenuSubButtonSize {
    fn default() -> (r: Self)
        ensures
            r == SidebarMenuSubButtonSize::Md,
    {
        SidebarMenuSubButtonSize::Md
    }
}

/// Text size of typography components.
#[derive(Clone, Copy, PartialEq, Eq, Structural, Debug)]
pub enum TypographySize {
    Xs,
    Sm,
    Md,
    Lg,
    Xl,
}

impl TypographySize {
    /// The value written as its `data-size` attribute.
    pub fn as_str(&self) -> (r: &'static str)
        ensures
            *self == TypographySize::Xs ==> r@ == "xs"@,
            *self == TypographySize::Sm ==> r@ == "sm"@,
            *self == TypographySize::Md ==> r@ == "md"@,
            *self == TypographySize::Lg ==> r@ == "lg"@,
            *self == TypographySize::Xl ==> r@ == "xl"@,
    {
        match self {
            TypographySize::Xs => "xs",
            TypographySize::Sm => "sm",
            TypographySize::Md => "md",
            TypographySize::Lg => "lg",
            TypographySize::Xl => "xl",
        }
    }
}

impl Default for TypographySize {
    fn default() -> (r: Self)
        ensures
            r == TypographySize::Md,
    {
        TypographySize::Md
    }
}

/// Text color tone of typography components.
#[derive(Clone, Copy, PartialEq, Eq, Structural, Debug)]
pub enum TypographyTone {
    Default,
    Muted,
    Faint,
    SurfaceMuted,
    Accent,
    Destructive,
}

impl TypographyTone {
    /// The value written as its `data-tone` attribute.
    pub fn as_str(&self) -> (r: &'static str)
        ensures
            *self == TypographyTone::Default ==> r@ == "default"@,
            *self == TypographyTone::Muted ==> r@ == "muted"@,
            *self == TypographyTone::Faint ==> r@ == "faint"@,
            *self == TypographyTone::SurfaceMuted ==> r@ == "surface-muted"@,
            *self == TypographyTone::Accent ==> r@ == "accent"@,
            *self == TypographyTone::Destructive ==> r@ == "destructive"@,
    {
        match self {
            TypographyTone::Default => "default",
            TypographyTone::Muted => "muted",
            TypographyTone::Faint => "faint",
            TypographyTone::SurfaceMuted => "surface-muted",
            TypographyTone::Accent => "accent",
            TypographyTone::Destructive => "destructive",
        }
    }
}

impl Default for TypographyTone {
    fn default() -> (r: Self)
        ensures
            r == TypographyTone::Default,
    {
        TypographyTone::Default
    }
}

/// Font weight of typography components.
#[derive(Clone, Copy, PartialEq, Eq, Structural, Debug)]
pub enum TypographyWeight {
    Inherit,
    Lighter,
    Normal,
    Medium,
    Semibold,
    Bold,
}

impl TypographyWeight {
    /// The value written as its `data-weight` attribute.
    pub fn as_str(&self) -> (r: &'static str)
        ensures
            *self == TypographyWeight::Inherit ==> r@ == "inherit"@,
            *self == TypographyWeight::Lighter ==> r@ == "lighter"@,
            *self == TypographyWeight::Normal ==> r@ == "normal"@,
            *self == TypographyWeight::Medium ==> r@ == "medium"@,
            *self == TypographyWeight::Semibold ==> r@ == "semibold"@,
            *self == TypographyWeight::Bold ==> r@ == "bold"@,
    {
        match self {
            TypographyWeight::Inherit => "inherit",
            TypographyWeight::Lighter => "lighter",
            TypographyWeight::Normal => "normal",
            TypographyWeight::Medium => "medium",
            TypographyWeight::Semibold => "semibold",
            TypographyWeight::Bold => "bold",
        }
    }
}

impl Default for TypographyWeight {
    fn default() -> (r: Self)
        ensures
            r == TypographyWeight::Inherit,
    {
        TypographyWeight::Inherit
    }
}

/// Text alignment of typography components.
#[derive(Clone, Copy, PartialEq, Eq, Structural, Debug)]
pub enum TextAlign {
    Inherit,
    Start,
    Center,
    End,
}

impl TextAlign {
    /// The value written as its `data-align` attribute.
    pub fn as_str(&self) -> (r: &'static str)
        ensures
            *self == TextAlign::Inherit ==> r@ == "inherit"@,
            *self == TextAlign::Start ==> r@ == "start"@,
            *self == TextAlign::Center ==> r@ == "center"@,
            *self == TextAlign::End ==> r@ == "end"@,
    {
        match self {
            TextAlign::Inherit => "inherit",
            TextAlign::Start => "start",
            TextAlign::Center => "center",
            TextAlign::End => "end",
        }
    }
}

impl Default for TextAlign {
    fn default() -> (r: Self)
        ensures
            r == TextAlign::Inherit,
    {
        TextAlign::Inherit
    }
}

/// Line wrapping of typography components.
#[derive(Clone, Copy, PartialEq, Eq, Structural, Debug)]
pub enum TextWrap {
    Wrap,
    NoWrap,
    Balance,
    Pretty,
}

impl TextWrap {
    /// The value written as its `data-wrap` attribute.
    pub fn as_str(&self) -> (r: &'static str)
        ensures
            *self == TextWrap::Wrap ==> r@ == "wrap"@,
            *self == TextWrap::NoWrap ==> r@ == "nowrap"@,
            *self == TextWrap::Balance ==> r@ == "balance"@,
            *self == TextWrap::Pretty ==> r@ == "pretty"@,
    {
        match self {
            TextWrap::Wrap => "wrap",
            TextWrap::NoWrap => "nowrap",
            TextWrap::Balance => "balance",
            TextWrap::Pretty => "pretty",
        }
    }
}

impl Default for TextWrap {
    fn default() -> (r: Self)
        ensures
            r == TextWrap::Wrap,
    {
        TextWrap::Wrap
    }
}

/// The element a text component renders as.
#[derive(Clone, Copy, PartialEq, Eq, Structural, Debug)]
pub enum TextElement {
    P,
    Span,
    Div,
    Label,
}

impl TextElement {
    /// The value written as the element's tag.
    pub fn as_str(&self) -> (r: &'static str)
        ensures
            *self == TextElement::P ==> r@ == "p"@,
            *self == TextElement::Span ==> r@ == "span"@,
            *self == TextElement::Div ==> r@ == "div"@,
            *self == TextElement::Label ==> r@ == "label"@,
    {
        match self {
            TextElement::P => "p",
            TextElement::Span => "span",
            TextElement::Div => "div",
            TextElement::Label => "label",
        }
    }
}

impl Default for TextElement {
    fn default() -> (r: Self)
        ensures
            r == TextElement::P,
    {
        TextElement::P
    }
}

/// The level of a heading.
#[derive(Clone, Copy, PartialEq, Eq, Structural, Debug)]
pub enum HeadingLevel {
    H1,
    H2,
    H3,
    H4,
    H5,
    H6,
}

impl HeadingLevel {
    /// The value written as the element's tag.
    pub fn as_str(&self) -> (r: &'static str)
        ensures
            *self == HeadingLevel::H1 ==> r@ == "h1"@,
            *self == HeadingLevel::H2 ==> r@ == "h2"@,
            *self == HeadingLevel::H3 ==> r@ == "h3"@,
            *self == HeadingLevel::H4 ==> r@ == "h4"@,
            *self == HeadingLevel::H5 ==> r@ == "h5"@,
            *self == HeadingLevel::H6 ==> r@ == "h6"@,
    {
        match self {
            HeadingLevel::H1 => "h1",
            HeadingLevel::H2 => "h2",
            HeadingLevel::H3 => "h3",
            HeadingLevel::H4 => "h4",
            HeadingLevel::H5 => "h5",
            HeadingLevel::H6 => "h6",
        }
    }
}

impl Default for HeadingLevel {
    fn default() -> (r: Self)
        ensures
            r == HeadingLevel::H2,
    {
        HeadingLevel::H2
    }
}

/// The state a sidebar shows for whether it is open.
pub fn sidebar_state(open: bool) -> (r: SidebarState)
    ensures
        r == (if open {
            SidebarState::Expanded
        } else {
            SidebarState::Collapsed
        }),
{
    if open {
        SidebarState::Expanded
    } else {
        SidebarState::Collapsed
    }
}

/// What a press of a sidebar trigger changes: on a narrow screen the mobile
/// sheet flips; otherwise the opposite of the open state is requested.
#[derive(Clone, Copy, PartialEq, Eq, Debug)]
pub struct SidebarToggle {
    /// The new open state of the mobile sheet, when it changes.
    pub open_mobile: Option<bool>,
    /// The open state requested of the sidebar's owner, when one is.
    pub request_open: Option<bool>,
}

/// The effect of a press of a sidebar trigger.
pub fn sidebar_toggle(is_mobile: bool, open: bool, open_mobile: bool) -> (r: SidebarToggle)
    ensures
        is_mobile ==> r.open_mobile == Some(!open_mobile) && r.request_open is None,
        !is_mobile ==> r.open_mobile is None && r.request_open == Some(!open),
{
    if is_mobile {
        SidebarToggle { open_mobile: Some(!open_mobile), request_open: None }
    } else {
        SidebarToggle { open_mobile: None, request_open: Some(!open) }
    }
}

/// The computed attribute values of a typography element besides its variants.
pub struct TypographyExtras {
    /// The `data-truncate` value: `true` or `false`.
    pub data_truncate: String,
    /// The `data-line-clamp` value, when the text is clamped.
    pub data_line_clamp: Option<String>,
    /// The inline style that sets the clamp, when the text is clamped.
    pub style: Option<String>,
}

/// The truncation flag, line-clamp value and clamp style of a typography
/// element.
pub fn typography_extras(truncate: bool, line_clamp: Option<u8>) -> (r: TypographyExtras)
    ensures
        r.data_truncate@ == (if truncate {
            "true"@
        } else {
            "false"@
        }),
        match line_clamp {
            Some(n) => r.data_line_clamp is Some && r.data_line_clamp->0@ == decimal(n as nat)
                && r.style is Some && r.style->0@ == "--line-clamp: "@ + decimal(n as nat) + ";"@,
            None => r.data_line_clamp is None && r.style is None,
        },
{
    let mut data_truncate = String::new();
    if truncate {
        push_str(&mut data_truncate, "true");
    } else {
        push_str(&mut data_truncate, "false");
    }
    proof {
        reveal_strlit("true");
        reveal_strlit("false");
        assert(data_truncate@ =~= (if truncate { "true"@ } else { "false"@ }));
    }
    match line_clamp {
        Some(n) => {
            let mut value = String::new();
            push_decimal(&mut value, n as u64);
            let mut style = String::new();
            push_str(&mut style, "--line-clamp: ");
            push_decimal(&mut style, n as u64);
            push_str(&mut style, ";");
            assert(value@ =~= decimal(n as nat));
            assert(style@ =~= "--line-clamp: "@ + decimal(n as nat) + ";"@);
            TypographyExtras { data_truncate, data_line_clamp: Some(value), style: Some(style) }
        },
        None => TypographyExtras { data_truncate, data_line_clamp: None, style: None },
    }
}

} // verus!
