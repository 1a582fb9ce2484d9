use vstd::prelude::*;

verus! {

/// An event of a run that the timer can split on.
#[derive(Debug, Clone, Copy, PartialEq, Eq, Structural)]
pub enum Split {
    // Start, End, and Menu
    StartNewGame,
    StartAnyGame,
    EndingSplit,
    Menu,

    // Dreamers
    Lurien,
    Monomon,
    Hegemol,

    // Spell Levels
    VengefulSpirit,
    ShadeSoul,
    MenuShadeSoul,

    // Movement Abilities
    MothwingCloak,
    MenuCloak,
    ShadeCloak,
    MantisClaw,
    MenuClaw,
    MonarchWings,
    MenuWings,
    CrystalHeart,
    IsmasTear,
    MenuIsmasTear,

    // Dream Nail Levels
    DreamNail,
    DreamGate,
    DreamNail2,

    // Masks and Mask Shards
    MaskFragment1,
    MaskFragment2,
    MaskFragment3,
    Mask1,

    // Charms
    Dashmaster,

    // Other Items
    LumaflyLantern,
    OnObtainSimpleKey,
    SlyKey,
    ElegantKey,

    // Grubs
    Grub1,
    Grub2,
    Grub3,
    Grub4,
    Grub5,

    // Dirtmouth
    KingsPass,
    SlyShopExit,

    // Crossroads
    EnterBroodingMawlek,
    AncestralMound,
    GruzMother,
    SlyRescued,
    SalubraExit,
    EnterHollowKnight,
    UnchainedHollowKnight,

    // Greenpath
    EnterGreenpath,

    // Fungal
    MenuMantisJournal,

    // Resting Grounds
    DreamNailExit,

    // City
    GorgeousHusk,
    TransGorgeousHusk,
    MenuGorgeousHusk,
    Lemm2,
    MenuStoreroomsSimpleKey,
    EnterBlackKnight,
    WatcherChandelier,
    BlackKnight,
    BlackKnightTrans,

    // Peak
    MenuSlyKey,

    // Waterways
    DungDefenderExit,

    // Basin
    Abyss19from18,

    // Fog Canyon
    TeachersArchive,
    Uumuu,

    // Queen's Gardens
    QueensGardensEntry,

    // Deepnest
    BeastsDenTrapBench,
}

/// The splits used when none are configured: start a new game, then the ending.
pub fn default_splits() -> (r: Vec<Split>)
    ensures
        r@ == seq![Split::StartNewGame, Split::EndingSplit],
{
    let r = vec![Split::StartNewGame, Split::EndingSplit];
    assert(r@ =~= seq![Split::StartNewGame, Split::EndingSplit]);
    r
}

/// Whether reaching the first split again can safely reset the run: the
/// list starts with `StartNewGame`, holds it nowhere else, and holds
/// `EndingSplit` nowhere but last.
pub open spec fn auto_reset_safe_spec(s: Seq<Split>) -> bool {
    &&& s.len() > 0
    &&& s[0] == Split::StartNewGame
    &&& forall|i: int| 1 <= i < s.len() ==> s[i] != Split::StartNewGame
    &&& forall|i: int| 0 <= i < s.len() - 1 ==> s[i] != Split::EndingSplit
}

pub fn auto_reset_safe(s: &[Split]) -> (r: bool)
    ensures
        r == auto_reset_safe_spec(s@),
{
    if s.len() == 0 || s[0] != Split::StartNewGame {
        return false;
    }
    let mut i: usize = 1;
    while i < s.len()
        invariant
            1 <= i <= s.len(),
            forall|j: int| 1 <= j < i ==> s@[j] != Split::StartNewGame,
        decreases s.len() - i,
    {
        if s[i] == Split::StartNewGame {
            return false;
        }
        i = i + 1;
    }
    let mut j: usize = 0;
    while j + 1 < s.len()
        invariant
            j < s.len(),
            forall|k: int| 0 <= k < j ==> s@[k] != Split::EndingSplit,
        decreases s.len() - j,
    {
        if s[j] == Split::EndingSplit {
            return false;
        }
        j = j + 1;
    }
    true
}

/// What the timer does when a split is reached.
#[derive(Debug, Clone, Copy, PartialEq, Eq, Structural)]
pub enum TimerAction {
    /// The first split: reset the timer and start a run.
    Start,
    /// Any later split.
    Split,
}

/// The timer action for reaching split `i` of `n`, and the index of the
/// split to wait for next, which wraps to 0 after the last.
pub fn split_index(i: usize, n: usize) -> (r: (TimerAction, usize))
    ensures
        r.0 == (if i == 0 { TimerAction::Start } else { TimerAction::Split }),
        r.1 == (if n <= i + 1 { 0 } else { i + 1 }),
{
    let action = if i == 0 { TimerAction::Start } else { TimerAction::Split };
    if n == 0 || i >= n - 1 {
        (action, 0)
    } else {
        (action, i + 1)
    }
}

} // verus!
