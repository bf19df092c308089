//! The documents of a difficulty table, and their mathematical models.

use vstd::prelude::*;

verus! {

/// One chart of a table.
#[derive(Debug)]
pub struct DifficultTableElement {
    /// Song title.
    pub title: String,
    /// Song artist.
    pub artist: String,
    /// MD5 hash of the chart.
    pub md5: String,
    /// SHA-256 hash of the chart; empty where the source gives none.
    pub sha256: String,
    /// Play mode of the chart.
    pub mode: String,
    /// Difficulty label: an integer in decimal digits, or any other text.
    pub level: String,
    /// Name of the variant.
    pub diff_name: String,
    /// Free-form information.
    pub info: String,
    /// Identifier of the chart at its source.
    pub bms_id: String,
}

/// One trophy of a course.
#[derive(Debug, Clone)]
pub struct DifficultTableCourseTrophy {
    /// Trophy name.
    pub name: String,
    /// Highest miss rate that still earns the trophy, a single-precision
    /// number kept as its IEEE 754 bits (`f32::to_bits`).
    pub miss_rate_bits: u32,
    /// Lowest score rate that earns the trophy, kept in the same way.
    pub score_rate_bits: u32,
}

/// A named sequence of charts with the conditions for passing it.
#[derive(Debug, Clone)]
pub struct DifficultTableCourse {
    /// Course name.
    pub name: String,
    /// Conditions of play.
    pub constraints: Vec<String>,
    /// Trophies to earn.
    pub trophy: Vec<DifficultTableCourseTrophy>,
    /// MD5 hashes of the charts, in the order of play.
    pub md5: Vec<String>,
}

/// A difficulty table: its header and, once resolved, its charts and levels.
///
/// A header as it comes from its document has no `contents` and no `levels`;
/// resolution fills both.
#[derive(Debug)]
pub struct DifficultTable {
    /// Name of the table.
    pub name: String,
    /// Symbol that marks the table's levels.
    pub symbol: String,
    /// When the table was last updated.
    pub last_update: String,
    /// Tag of the table.
    pub tag: String,
    /// Where the charts are listed; absolute once validated.
    pub data_url: String,
    /// Rules on the chart list.
    pub data_rule: Vec<String>,
    /// Name mapping of the table.
    pub attr: String,
    /// Play mode of the table.
    pub mode: String,
    /// Where the table comes from.
    pub original_url: String,
    /// The charts, in the order of their document.
    pub contents: Vec<DifficultTableElement>,
    /// The distinct levels of the charts, in level order.
    pub levels: Vec<String>,
    /// The courses, as one flat list.
    pub courses: Vec<DifficultTableCourse>,
}

/// The model of a `DifficultTableElement`.
pub ghost struct Entry {
    pub title: Seq<char>,
    pub artist: Seq<char>,
    pub md5: Seq<char>,
    pub sha256: Seq<char>,
    pub mode: Seq<char>,
    pub level: Seq<char>,
    pub diff_name: Seq<char>,
    pub info: Seq<char>,
    pub bms_id: Seq<char>,
}

/// The model of a `DifficultTableCourseTrophy`.
pub ghost struct Trophy {
    pub name: Seq<char>,
    pub miss_rate_bits: u32,
    pub score_rate_bits: u32,
}

/// The model of a `DifficultTableCourse`.
pub ghost struct Course {
    pub name: Seq<char>,
    pub constraints: Seq<Seq<char>>,
    pub trophy: Seq<Trophy>,
    pub md5: Seq<Seq<char>>,
}

/// The model of a `DifficultTable`.
pub ghost struct Table {
    pub name: Seq<char>,
    pub symbol: Seq<char>,
    pub last_update: Seq<char>,
    pub tag: Seq<char>,
    pub data_url: Seq<char>,
    pub data_rule: Seq<Seq<char>>,
    pub attr: Seq<char>,
    pub mode: Seq<char>,
    pub original_url: Seq<char>,
    pub contents: Seq<Entry>,
    pub levels: Seq<Seq<char>>,
    pub courses: Seq<Course>,
}

impl View for DifficultTableElement {
    type V = Entry;

    open spec fn view(&self) -> Entry {
        Entry {
            title: self.title@,
            artist: self.artist@,
            md5: self.md5@,
            sha256: self.sha256@,
            mode: self.mode@,
            level: self.level@,
            diff_name: self.diff_name@,
            info: self.info@,
            bms_id: self.bms_id@,
        }
    }
}

impl DeepView for DifficultTableElement {
    type V = Entry;

    open spec fn deep_view(&self) -> Entry {
        self@
    }
}

impl View for DifficultTableCourseTrophy {
    type V = Trophy;

    open spec fn view(&self) -> Trophy {
        Trophy {
            name: self.name@,
            miss_rate_bits: self.miss_rate_bits,
            score_rate_bits: self.score_rate_bits,
        }
    }
}

impl DeepView for DifficultTableCourseTrophy {
    type V = Trophy;

    open spec fn deep_view(&self) -> Trophy {
        self@
    }
}

impl View for DifficultTableCourse {
    type V = Course;

    open spec fn view(&self) -> Course {
        Course {
            name: self.name@,
            constraints: self.constraints.deep_view(),
            trophy: self.trophy.deep_view(),
            md5: self.md5.deep_view(),
        }
    }
}

impl DeepView for DifficultTableCourse {
    type V = Course;

    open spec fn deep_view(&self) -> Course {
        self@
    }
}

impl View for DifficultTable {
    type V = Table;

    open spec fn view(&self) -> Table {
        Table {
            name: self.name@,
            symbol: self.symbol@,
            last_update: self.last_update@,
            tag: self.tag@,
            data_url: self.data_url@,
            data_rule: self.data_rule.deep_view(),
            attr: self.attr@,
            mode: self.mode@,
            original_url: self.original_url@,
            contents: self.contents.deep_view(),
            levels: self.levels.deep_view(),
            courses: self.courses.deep_view(),
        }
    }
}

impl Table {
    /// Whether the table has what every header must have: a name, a symbol
    /// and a chart list.
    pub open spec fn has_required_fields(self) -> bool {
        self.name.len() > 0 && self.symbol.len() > 0 && self.data_url.len() > 0
    }

    /// Whether the table's levels are the level index of its charts.
    pub open spec fn is_indexed(self) -> bool {
        self.levels == crate::levels::level_index(self.contents)
    }

    /// Whether the table is what a resolution ends with: a header with all
    /// that it must have, and the levels of its own charts.
    pub open spec fn is_resolved(self) -> bool {
        self.has_required_fields() && self.is_indexed()
    }
}

} // verus!
