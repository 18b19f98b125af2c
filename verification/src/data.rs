//! Value types shared by the scheduler, the reconciliation logic and the
//! snapshot builder: tiers, endpoint descriptors, persisted records, and the
//! published aggregate view.

use vstd::prelude::*;

verus! {

/// One of the five fixed remote-data partitions, each yielding one match.
#[derive(Clone, Copy, PartialEq, Eq, Structural, Debug)]
pub enum Tier {
    One,
    Two,
    Three,
    Four,
    Five,
}

impl Tier {
    /// The match identifier used by the remote source for this tier.
    pub open spec fn spec_id(self) -> Seq<char> {
        match self {
            Tier::One => "2-1"@,
            Tier::Two => "2-2"@,
            Tier::Three => "2-3"@,
            Tier::Four => "2-4"@,
            Tier::Five => "2-5"@,
        }
    }

    /// The tier's display digit.
    pub open spec fn spec_str(self) -> Seq<char> {
        match self {
            Tier::One => "1"@,
            Tier::Two => "2"@,
            Tier::Three => "3"@,
            Tier::Four => "4"@,
            Tier::Five => "5"@,
        }
    }

    pub fn as_id(self) -> (r: String)
        ensures
            r@ == self.spec_id(),
    {
        match self {
            Tier::One => String::from_str("2-1"),
            Tier::Two => String::from_str("2-2"),
            Tier::Three => String::from_str("2-3"),
            Tier::Four => String::from_str("2-4"),
            Tier::Five => String::from_str("2-5"),
        }
    }

    pub fn as_str(&self) -> (r: &'static str)
        ensures
            r@ == self.spec_str(),
    {
        match self {
            Tier::One => "1",
            Tier::Two => "2",
            Tier::Three => "3",
            Tier::Four => "4",
            Tier::Five => "5",
        }
    }

    /// All five tiers, in ascending order.
    pub fn all() -> (r: Vec<Tier>)
        ensures
            r@ == seq![Tier::One, Tier::Two, Tier::Three, Tier::Four, Tier::Five],
    {
        let mut v: Vec<Tier> = Vec::new();
        v.push(Tier::One);
        v.push(Tier::Two);
        v.push(Tier::Three);
        v.push(Tier::Four);
        v.push(Tier::Five);
        assert(v@ =~= seq![Tier::One, Tier::Two, Tier::Three, Tier::Four, Tier::Five]);
        v
    }
}

/// A remote resource reachable through the scheduler, rendered to a request
/// URL on demand.
#[derive(Clone, Debug)]
pub enum APIEndpoint {
    Match(Tier),
    Guild(String),
    AllWvWGuilds,
    GuildIDfromName(String),
}

impl APIEndpoint {
    /// The fully qualified request URL for this endpoint.
    pub open spec fn spec_url(self) -> Seq<char> {
        match self {
            APIEndpoint::Match(tier) => "https://api.guildwars2.com/v2/wvw/matches/"@
                + tier.spec_id(),
            APIEndpoint::Guild(id) => "https://api.guildwars2.com/v2/guild/"@ + id@,
            APIEndpoint::AllWvWGuilds => "https://api.guildwars2.com/v2/wvw/guilds/eu"@,
            APIEndpoint::GuildIDfromName(name) => "https://api.guildwars2.com/v2/guild/search?name="@
                + name@,
        }
    }

    pub fn url(&self) -> (r: String)
        ensures
            r@ == self.spec_url(),
    {
        match self {
            APIEndpoint::Match(tier) => String::from_str(
                "https://api.guildwars2.com/v2/wvw/matches/",
            ).concat(tier.as_id().as_str()),
            APIEndpoint::Guild(id) => String::from_str(
                "https://api.guildwars2.com/v2/guild/",
            ).concat(id.as_str()),
            APIEndpoint::AllWvWGuilds => String::from_str(
                "https://api.guildwars2.com/v2/wvw/guilds/eu",
            ),
            APIEndpoint::GuildIDfromName(name) => String::from_str(
                "https://api.guildwars2.com/v2/guild/search?name=",
            ).concat(name.as_str()),
        }
    }
}

/// A persisted guild record, keyed by id.
#[derive(Clone, Debug)]
pub struct Guild {
    pub id: String,
    pub name: String,
    pub tag: String,
}

impl Guild {
    /// The guild's display form: the name followed by the bracketed tag.
    pub open spec fn spec_display(self) -> Seq<char> {
        self.name@ + " ["@ + self.tag@ + "]"@
    }

    pub fn display_string(&self) -> (r: String)
        ensures
            r@ == self.spec_display(),
    {
        self.name.clone().concat(" [").concat(self.tag.as_str()).concat("]")
    }
}

/// A diagnostic record carried by the best-effort error sink.
#[derive(Clone, Debug)]
pub struct Issue {
    pub text: String,
}

/// The three world identifiers of one match.
#[derive(Clone, Copy, PartialEq, Eq, Structural, Debug)]
pub struct Worlds {
    pub red: u32,
    pub green: u32,
    pub blue: u32,
}

/// The three victory-point counts of one match.
#[derive(Clone, Copy, PartialEq, Eq, Structural, Debug)]
pub struct VictoryPoints {
    pub red: u32,
    pub green: u32,
    pub blue: u32,
}

/// A persisted match record, keyed by match id (one row per tier).
#[derive(Clone, Debug)]
pub struct Match {
    pub id: String,
    pub start_time: String,
    pub end_time: String,
    pub worlds: Worlds,
    pub victory_points: VictoryPoints,
}

/// One color's slice of the published view: the team display name, its
/// victory points rendered as text, and the member guild names grouped by
/// first letter (an association list with strictly increasing keys).
#[derive(Clone, Debug)]
pub struct MatchColor {
    pub team_name: String,
    pub victory_points: String,
    pub guilds: Vec<(char, Vec<String>)>,
}

/// The published view of one match: one entry per color.
#[derive(Clone, Debug)]
pub struct MatchData {
    pub red: MatchColor,
    pub green: MatchColor,
    pub blue: MatchColor,
}

/// The complete aggregate served to readers, rebuilt wholesale each cycle:
/// per-tier match views keyed by tier index (strictly increasing keys), the
/// list of highlighted guild names, and the viewer's own team name.
#[derive(Clone, Debug)]
pub struct Data {
    pub matches: Vec<(usize, MatchData)>,
    pub important_guilds: Vec<String>,
    pub our_team: String,
}

/// The character for one decimal digit.
pub open spec fn spec_digit(d: int) -> char {
    if d == 0 {
        '0'
    } else if d == 1 {
        '1'
    } else if d == 2 {
        '2'
    } else if d == 3 {
        '3'
    } else if d == 4 {
        '4'
    } else if d == 5 {
        '5'
    } else if d == 6 {
        '6'
    } else if d == 7 {
        '7'
    } else if d == 8 {
        '8'
    } else {
        '9'
    }
}

/// The decimal rendering of a non-negative integer, most significant digit
/// first, with no leading zeros (except for zero itself).
pub open spec fn spec_dec(n: int) -> Seq<char>
    decreases n,
{
    if n < 10 {
        seq![spec_digit(n)]
    } else {
        spec_dec(n / 10).push(spec_digit(n % 10))
    }
}

fn digit_char(d: u32) -> (r: char)
    requires
        d < 10,
    ensures
        r == spec_digit(d as int),
{
    if d == 0 {
        '0'
    } else if d == 1 {
        '1'
    } else if d == 2 {
        '2'
    } else if d == 3 {
        '3'
    } else if d == 4 {
        '4'
    } else if d == 5 {
        '5'
    } else if d == 6 {
        '6'
    } else if d == 7 {
        '7'
    } else if d == 8 {
        '8'
    } else {
        '9'
    }
}

fn u32_to_chars(n: u32) -> (r: Vec<char>)
    ensures
        r@ == spec_dec(n as int),
    decreases n,
{
    if n < 10 {
        let mut v: Vec<char> = Vec::new();
        v.push(digit_char(n));
        assert(v@ =~= seq![spec_digit(n as int)]);
        v
    } else {
        proof {
            assert(n / 10 < n) by (nonlinear_arith)
                requires
                    n >= 10,
            ;
        }
        let mut v = u32_to_chars(n / 10);
        v.push(digit_char(n % 10));
        v
    }
}

/// The decimal rendering of `n` as a string.
pub fn u32_to_string(n: u32) -> (r: String)
    ensures
        r@ == spec_dec(n as int),
{
    let chars = u32_to_chars(n);
    crate::normalize::chars_to_string(&chars)
}

} // verus!
