//! Fitness rule extraction for law-level applicability.
//!
//! Parses Application+Scope provisions into `FitnessRule`s with a polarity
//! (applies-to / disapplies-to / extends-to) and p-dimension tags (Person,
//! Process, Place, Plant, Property, Sector), plus cross-references.

use vstd::prelude::*;
use crate::rx::{find_first, find_iter, is_match, is_match_spec, pieces_view, regex_find_iter, spans_spec, MatchPieces};
use crate::text::{from_range, owned, str_eq, str_lowercase, to_chars, to_lowercase, trim, trim_bounds, starts_with_str};

verus! {

/// Whether the rule includes or excludes applicability.
#[derive(Debug, Clone, Copy, PartialEq, Eq, Structural, Hash)]
pub enum RulePolarity {
    /// "These Regulations shall apply to..."
    AppliesTo,
    /// "These Regulations shall not apply to..."
    DisappliesTo,
    /// "These Regulations extend to..." (geographic scope)
    ExtendsTo,
}

impl RulePolarity {
    pub fn as_str(&self) -> (r: &'static str)
        ensures
            r@ == match *self {
                RulePolarity::AppliesTo => "AppliesTo"@,
                RulePolarity::DisappliesTo => "DisappliesTo"@,
                RulePolarity::ExtendsTo => "ExtendsTo"@,
            },
    {
        match self {
            RulePolarity::AppliesTo => "AppliesTo",
            RulePolarity::DisappliesTo => "DisappliesTo",
            RulePolarity::ExtendsTo => "ExtendsTo",
        }
    }
}

/// The six p-dimensions of applicability.
#[derive(Debug, Clone, Copy, PartialEq, Eq, Structural, Hash)]
pub enum PDimension {
    /// Who the law applies to (employer, worker, operator, ...)
    Person,
    /// Activities that trigger applicability (construction work, diving, ...)
    Process,
    /// Where the law applies (Great Britain, offshore, mine, ...)
    Place,
    /// Equipment or substances (asbestos, pressure systems, ...)
    Plant,
    /// Qualifying conditions (at work, 5 or more employees, ...)
    Property,
    /// Industry or sector (construction, mining, nuclear, ...)
    Sector,
}

impl PDimension {
    pub fn as_str(&self) -> (r: &'static str)
        ensures
            r@ == match *self {
                PDimension::Person => "Person"@,
                PDimension::Process => "Process"@,
                PDimension::Place => "Place"@,
                PDimension::Plant => "Plant"@,
                PDimension::Property => "Property"@,
                PDimension::Sector => "Sector"@,
            },
    {
        match self {
            PDimension::Person => "Person",
            PDimension::Process => "Process",
            PDimension::Place => "Place",
            PDimension::Plant => "Plant",
            PDimension::Property => "Property",
            PDimension::Sector => "Sector",
        }
    }
}

/// A single tagged match: which p-dimension, and the canonical term.
#[derive(Debug, Clone)]
pub struct PDimensionTag {
    pub dimension: PDimension,
    pub term: String,
}

impl View for PDimensionTag {
    type V = (PDimension, Seq<char>);

    open spec fn view(&self) -> (PDimension, Seq<char>) {
        (self.dimension, self.term@)
    }
}

/// An applicability rule extracted from an Application+Scope provision.
#[derive(Debug, Clone)]
pub struct FitnessRule {
    /// Does this rule include or exclude?
    pub polarity: RulePolarity,
    /// P-dimension tags found in the text.
    pub tags: Vec<PDimensionTag>,
    /// The (trimmed) text this rule was extracted from.
    pub raw_text: String,
    /// References to other provisions found in the text.
    pub cross_refs: Vec<String>,
}

/// (polarity, tags, raw text, cross-references)
pub type RuleView = (RulePolarity, Seq<(PDimension, Seq<char>)>, Seq<char>, Seq<Seq<char>>);

impl View for FitnessRule {
    type V = RuleView;

    open spec fn view(&self) -> RuleView {
        (
            self.polarity,
            self.tags@.map_values(|t: PDimensionTag| t@),
            self.raw_text@,
            self.cross_refs@.map_values(|s: String| s@),
        )
    }
}

/// Negative applicability: checked before the positive pattern, since "shall apply"
/// occurs inside "shall not apply".
pub const DISAPPLIES_RE: &'static str = r"(?i)(?:shall\s+not\s+apply|do(?:es)?\s+not\s+apply|shall\s+not\s+extend|do(?:es)?\s+not\s+extend|shall\s+have\s+no\s+effect|cease[sd]?\s+to\s+have\s+effect|shall\s+not\s+have\s+effect)";
/// Geographic extension.
pub const EXTENDS_RE: &'static str = r"(?i)(?:extend[s]?\s+(?:only\s+)?to|shall\s+extend\s+(?:only\s+)?to|extend[s]?\s+outside)";
/// Positive applicability.
pub const APPLIES_RE: &'static str = r"(?i)(?:shall\s+apply|appl(?:y|ies)\s+(?:to|in\s+relation\s+to|where|in)|shall\s+have\s+effect|under\s+a\s+like\s+duty|shall\s+bind\s+the\s+Crown)";
/// References to other provisions (regulation N, paragraph N, schedule N, ...).
pub const CROSS_REF_RE: &'static str = r"(?i)\b(?:regulations?|paragraphs?|sub-paragraphs?|sections?|articles?|schedules?|parts?)\s+[\d(]+[\d().a-z]*";
/// Split point of a compound provision ("... but they shall ...", "except that", "save that").
pub const SPLIT_RE: &'static str = r"(?i)\b(?:but\s+(?:they\s+)?shall|except\s+that|save\s+that)";

/// (dimension, pattern, canonical term)
pub type Entry = (PDimension, &'static str, &'static str);

/// Core p-dimension dictionary: (dimension, case-insensitive word-bounded pattern, canonical term), compound terms before shorter ones.
pub open spec fn core_entries_spec() -> Seq<Entry> {
    seq![
        (PDimension::Person, "(?i)\\bself[- ]employed\\s+person\\b", "self-employed person"),
        (PDimension::Person, "(?i)\\bcompetent\\s+person\\b", "competent person"),
        (PDimension::Person, "(?i)\\bresponsible\\s+person\\b", "responsible person"),
        (PDimension::Person, "(?i)\\bappointed\\s+person\\b", "appointed person"),
        (PDimension::Person, "(?i)\\bduty\\s+holder\\b", "duty holder"),
        (PDimension::Person, "(?i)\\bagency\\s+worker\\b", "agency worker"),
        (PDimension::Person, "(?i)\\bperson\\s+at\\s+work\\b", "person at work"),
        (PDimension::Person, "(?i)\\bpersons?\\s+(?:at\\s+)?work\\b", "person at work"),
        (PDimension::Person, "(?i)\\bsub[- ]?contractor\\b", "sub-contractor"),
        (PDimension::Person, "(?i)\\bemployer(?:s)?\\b", "employer"),
        (PDimension::Person, "(?i)\\bemployee(?:s)?\\b", "employee"),
        (PDimension::Person, "(?i)\\bworker(?:s)?\\b", "worker"),
        (PDimension::Person, "(?i)\\bcontractor(?:s)?\\b", "contractor"),
        (PDimension::Person, "(?i)\\boperator(?:s)?\\b", "operator"),
        (PDimension::Person, "(?i)\\bmanufacturer(?:s)?\\b", "manufacturer"),
        (PDimension::Person, "(?i)\\bsupplier(?:s)?\\b", "supplier"),
        (PDimension::Person, "(?i)\\bimporter(?:s)?\\b", "importer"),
        (PDimension::Person, "(?i)\\boccupier(?:s)?\\b", "occupier"),
        (PDimension::Person, "(?i)\\bowner(?:s)?\\b", "owner"),
        (PDimension::Person, "(?i)\\binstaller(?:s)?\\b", "installer"),
        (PDimension::Person, "(?i)\\bdesigner(?:s)?\\b", "designer"),
        (PDimension::Person, "(?i)\\bmaster(?:s)?\\s+(?:of|or)\\s+(?:the\\s+|a\\s+)?(?:sea[- ]going\\s+)?ship\\b", "master of ship"),
        (PDimension::Person, "(?i)\\bmaster\\s+or\\s+crew\\b", "master of ship"),
        (PDimension::Person, "(?i)\\bin\\s+the\\s+public\\s+service\\s+of\\s+the\\s+Crown\\b", "Crown service"),
        (PDimension::Person, "(?i)\\b(?:bind|apply\\s+to)\\s+the\\s+Crown\\b", "Crown application"),
        (PDimension::Person, "(?i)\\bcrew\\b", "crew"),
        (PDimension::Process, "(?i)\\bconstruction\\s+work\\b", "construction work"),
        (PDimension::Process, "(?i)\\bdiving\\s+(?:operation|project|work)\\b", "diving operations"),
        (PDimension::Process, "(?i)\\bmining\\s+operation\\b", "mining operations"),
        (PDimension::Process, "(?i)\\bquarrying\\b", "quarrying"),
        (PDimension::Process, "(?i)\\bhandling\\s+(?:of\\s+)?dangerous\\s+substances?\\b", "handling dangerous substances"),
        (PDimension::Process, "(?i)\\bloading\\s+(?:or|and)\\s+unloading\\b", "loading/unloading"),
        (PDimension::Process, "(?i)\\bmanual\\s+handling\\b", "manual handling"),
        (PDimension::Process, "(?i)\\bwork\\s+at\\s+height\\b", "work at height"),
        (PDimension::Process, "(?i)\\bwork\\s+with\\s+display\\s+screen\\b", "work with display screens"),
        (PDimension::Process, "(?i)\\btransport(?:ation)?\\s+(?:by\\s+)?(?:road|rail|sea|air|waterway)\\b", "transport"),
        (PDimension::Process, "(?i)\\bhealth\\s+surveillance\\b", "health surveillance"),
        (PDimension::Process, "(?i)\\brisk\\s+assessment\\b", "risk assessment"),
        (PDimension::Process, "(?i)\\basbestos\\s+work\\b", "asbestos work"),
        (PDimension::Process, "(?i)\\bwork\\s+with\\s+lead\\b", "lead work"),
        (PDimension::Process, "(?i)\\bwork\\s+with\\s+(?:ionising\\s+)?radiation\\b", "radiation work"),
        (PDimension::Process, "(?i)\\bpetroleum\\s+(?:operation|activit)\\b", "petroleum operations"),
        (PDimension::Process, "(?i)\\belectrical\\s+work\\b", "electrical work"),
        (PDimension::Process, "(?i)\\bgas\\s+(?:fitting|supply|work|installation)\\b", "gas work"),
        (PDimension::Process, "(?i)\\bwork\\s+(?:with|involving)\\s+explosive\\b", "explosives work"),
        (PDimension::Process, "(?i)\\bnoise\\s+(?:exposure|assessment)\\b", "noise exposure"),
        (PDimension::Process, "(?i)\\bvibration\\s+(?:exposure|assessment)\\b", "vibration exposure"),
        (PDimension::Process, "(?i)\\bpressure\\s+system\\b", "pressure systems work"),
        (PDimension::Process, "(?i)\\bcarriage\\s+(?:of\\s+)?(?:dangerous\\s+)?(?:goods|class\\s+\\d)\\b", "carriage of goods"),
        (PDimension::Process, "(?i)\\bnational\\s+carriage\\b", "carriage of goods"),
        (PDimension::Process, "(?i)\\bcarriage\\s+by\\s+(?:road|rail|sea|air|vehicles?)\\b", "carriage of goods"),
        (PDimension::Place, "(?i)\\boutside\\s+Great\\s+Britain\\b", "outside Great Britain"),
        (PDimension::Place, "(?i)\\bGreat\\s+Britain\\b", "Great Britain"),
        (PDimension::Place, "(?i)\\bNorthern\\s+Ireland\\b", "Northern Ireland"),
        (PDimension::Place, "(?i)\\bUnited\\s+Kingdom\\b", "United Kingdom"),
        (PDimension::Place, "(?i)\\boffshore\\s+installation\\b", "offshore installation"),
        (PDimension::Place, "(?i)\\bterritorial\\s+(?:sea|waters?)\\b", "territorial sea"),
        (PDimension::Place, "(?i)\\bcontinental\\s+shelf\\b", "continental shelf"),
        (PDimension::Place, "(?i)\\bconstruction\\s+site\\b", "construction site"),
        (PDimension::Place, "(?i)\\bEngland(?:\\s+and\\s+Wales)?\\b", "England"),
        (PDimension::Place, "(?i)\\bWales\\b", "Wales"),
        (PDimension::Place, "(?i)\\bScotland\\b", "Scotland"),
        (PDimension::Place, "(?i)\\boffshore\\b", "offshore"),
        (PDimension::Place, "(?i)\\bmine(?:s)?\\b", "mine"),
        (PDimension::Place, "(?i)\\bquarr(?:y|ies)\\b", "quarry"),
        (PDimension::Place, "(?i)\\bfactor(?:y|ies)\\b", "factory"),
        (PDimension::Place, "(?i)\\bpremises\\b", "premises"),
        (PDimension::Place, "(?i)\\bworkplace(?:s)?\\b", "workplace"),
        (PDimension::Place, "(?i)\\bship(?:s)?\\b", "ship"),
        (PDimension::Place, "(?i)\\baircraft\\b", "aircraft"),
        (PDimension::Place, "(?i)\\bestablishment(?:s)?\\b", "establishment"),
        (PDimension::Plant, "(?i)\\bdangerous\\s+substance(?:s)?\\b", "dangerous substances"),
        (PDimension::Plant, "(?i)\\bdisplay\\s+screen\\s+equipment\\b", "display screen equipment"),
        (PDimension::Plant, "(?i)\\bpersonal\\s+protective\\s+equipment\\b", "personal protective equipment"),
        (PDimension::Plant, "(?i)\\b\\bPPE\\b\\b", "personal protective equipment"),
        (PDimension::Plant, "(?i)\\bwork\\s+equipment\\b", "work equipment"),
        (PDimension::Plant, "(?i)\\bpressure\\s+system(?:s)?\\b", "pressure systems"),
        (PDimension::Plant, "(?i)\\bdangerous\\s+goods\\b", "dangerous goods"),
        (PDimension::Plant, "(?i)\\bgas\\s+fitting(?:s)?\\b", "gas fittings"),
        (PDimension::Plant, "(?i)\\bionising\\s+radiation\\b", "ionising radiation"),
        (PDimension::Plant, "(?i)\\bbiological\\s+agent(?:s)?\\b", "biological agents"),
        (PDimension::Plant, "(?i)\\basbestos\\b", "asbestos"),
        (PDimension::Plant, "(?i)\\blead\\b", "lead"),
        (PDimension::Plant, "(?i)\\bexplosive(?:s)?\\b", "explosives"),
        (PDimension::Plant, "(?i)\\bpetroleum\\b", "petroleum"),
        (PDimension::Plant, "(?i)\\bchemical(?:s)?\\b", "chemicals"),
        (PDimension::Property, "(?i)\\bat\\s+work\\b", "at work"),
        (PDimension::Property, "(?i)\\b(?:five|5)\\s+or\\s+more\\s+employee\\b", "5 or more employees"),
        (PDimension::Property, "(?i)\\bsporadic\\s+and\\s+low\\s+intensity\\b", "sporadic and low intensity"),
        (PDimension::Property, "(?i)\\bcarried\\s+out\\s+solely\\s+by\\s+(?:the\\s+)?crew\\b", "carried out solely by crew"),
        (PDimension::Property, "(?i)\\bnormal\\s+ship[- ]?board\\s+activiti?es\\b", "normal shipboard activities"),
        (PDimension::Property, "(?i)\\bnot\\s+(?:liable|likely)\\s+to\\s+expose\\b", "not liable to expose persons"),
        (PDimension::Property, "(?i)\\bnot\\s+in\\s+prolonged\\s+use\\b", "not in prolonged use"),
        (PDimension::Property, "(?i)\\bon\\s+board\\s+(?:a\\s+)?transport\\b", "on board transport"),
        (PDimension::Sector, "(?i)\\bconstruction\\s+(?:industry|sector|project)\\b", "construction"),
        (PDimension::Sector, "(?i)\\bmining\\s+(?:industry|sector|operation)\\b", "mining"),
        (PDimension::Sector, "(?i)\\boffshore\\s+(?:oil|gas|petroleum|industry)\\b", "offshore oil & gas"),
        (PDimension::Sector, "(?i)\\bnuclear\\s+(?:industry|sector|installation|site)\\b", "nuclear"),
        (PDimension::Sector, "(?i)\\bchemical\\s+(?:industry|sector)\\b", "chemicals"),
        (PDimension::Sector, "(?i)\\bpetroleum\\s+(?:industry|sector)\\b", "petroleum"),
        (PDimension::Sector, "(?i)\\bgas\\s+(?:industry|sector|distribution)\\b", "gas supply"),
        (PDimension::Sector, "(?i)\\bmaritime\\b", "maritime"),
        (PDimension::Sector, "(?i)\\bshipping\\b", "maritime"),
        (PDimension::Sector, "(?i)\\bagricultur\\b", "agriculture"),
        (PDimension::Sector, "(?i)\\bwaste\\s+(?:management|disposal)\\b", "waste management"),
        (PDimension::Sector, "(?i)\\bwater\\s+(?:industry|undertaker|supply)\\b", "water industry"),
    ]
}

pub fn core_entries() -> (r: Vec<Entry>)
    ensures
        r@ == core_entries_spec(),
{
    vec![
        (PDimension::Person, "(?i)\\bself[- ]employed\\s+person\\b", "self-employed person"),
        (PDimension::Person, "(?i)\\bcompetent\\s+person\\b", "competent person"),
        (PDimension::Person, "(?i)\\bresponsible\\s+person\\b", "responsible person"),
        (PDimension::Person, "(?i)\\bappointed\\s+person\\b", "appointed person"),
        (PDimension::Person, "(?i)\\bduty\\s+holder\\b", "duty holder"),
        (PDimension::Person, "(?i)\\bagency\\s+worker\\b", "agency worker"),
        (PDimension::Person, "(?i)\\bperson\\s+at\\s+work\\b", "person at work"),
        (PDimension::Person, "(?i)\\bpersons?\\s+(?:at\\s+)?work\\b", "person at work"),
        (PDimension::Person, "(?i)\\bsub[- ]?contractor\\b", "sub-contractor"),
        (PDimension::Person, "(?i)\\bemployer(?:s)?\\b", "employer"),
        (PDimension::Person, "(?i)\\bemployee(?:s)?\\b", "employee"),
        (PDimension::Person, "(?i)\\bworker(?:s)?\\b", "worker"),
        (PDimension::Person, "(?i)\\bcontractor(?:s)?\\b", "contractor"),
        (PDimension::Person, "(?i)\\boperator(?:s)?\\b", "operator"),
        (PDimension::Person, "(?i)\\bmanufacturer(?:s)?\\b", "manufacturer"),
        (PDimension::Person, "(?i)\\bsupplier(?:s)?\\b", "supplier"),
        (PDimension::Person, "(?i)\\bimporter(?:s)?\\b", "importer"),
        (PDimension::Person, "(?i)\\boccupier(?:s)?\\b", "occupier"),
        (PDimension::Person, "(?i)\\bowner(?:s)?\\b", "owner"),
        (PDimension::Person, "(?i)\\binstaller(?:s)?\\b", "installer"),
        (PDimension::Person, "(?i)\\bdesigner(?:s)?\\b", "designer"),
        (PDimension::Person, "(?i)\\bmaster(?:s)?\\s+(?:of|or)\\s+(?:the\\s+|a\\s+)?(?:sea[- ]going\\s+)?ship\\b", "master of ship"),
        (PDimension::Person, "(?i)\\bmaster\\s+or\\s+crew\\b", "master of ship"),
        (PDimension::Person, "(?i)\\bin\\s+the\\s+public\\s+service\\s+of\\s+the\\s+Crown\\b", "Crown service"),
        (PDimension::Person, "(?i)\\b(?:bind|apply\\s+to)\\s+the\\s+Crown\\b", "Crown application"),
        (PDimension::Person, "(?i)\\bcrew\\b", "crew"),
        (PDimension::Process, "(?i)\\bconstruction\\s+work\\b", "construction work"),
        (PDimension::Process, "(?i)\\bdiving\\s+(?:operation|project|work)\\b", "diving operations"),
        (PDimension::Process, "(?i)\\bmining\\s+operation\\b", "mining operations"),
        (PDimension::Process, "(?i)\\bquarrying\\b", "quarrying"),
        (PDimension::Process, "(?i)\\bhandling\\s+(?:of\\s+)?dangerous\\s+substances?\\b", "handling dangerous substances"),
        (PDimension::Process, "(?i)\\bloading\\s+(?:or|and)\\s+unloading\\b", "loading/unloading"),
        (PDimension::Process, "(?i)\\bmanual\\s+handling\\b", "manual handling"),
        (PDimension::Process, "(?i)\\bwork\\s+at\\s+height\\b", "work at height"),
        (PDimension::Process, "(?i)\\bwork\\s+with\\s+display\\s+screen\\b", "work with display screens"),
        (PDimension::Process, "(?i)\\btransport(?:ation)?\\s+(?:by\\s+)?(?:road|rail|sea|air|waterway)\\b", "transport"),
        (PDimension::Process, "(?i)\\bhealth\\s+surveillance\\b", "health surveillance"),
        (PDimension::Process, "(?i)\\brisk\\s+assessment\\b", "risk assessment"),
        (PDimension::Process, "(?i)\\basbestos\\s+work\\b", "asbestos work"),
        (PDimension::Process, "(?i)\\bwork\\s+with\\s+lead\\b", "lead work"),
        (PDimension::Process, "(?i)\\bwork\\s+with\\s+(?:ionising\\s+)?radiation\\b", "radiation work"),
        (PDimension::Process, "(?i)\\bpetroleum\\s+(?:operation|activit)\\b", "petroleum operations"),
        (PDimension::Process, "(?i)\\belectrical\\s+work\\b", "electrical work"),
        (PDimension::Process, "(?i)\\bgas\\s+(?:fitting|supply|work|installation)\\b", "gas work"),
        (PDimension::Process, "(?i)\\bwork\\s+(?:with|involving)\\s+explosive\\b", "explosives work"),
        (PDimension::Process, "(?i)\\bnoise\\s+(?:exposure|assessment)\\b", "noise exposure"),
        (PDimension::Process, "(?i)\\bvibration\\s+(?:exposure|assessment)\\b", "vibration exposure"),
        (PDimension::Process, "(?i)\\bpressure\\s+system\\b", "pressure systems work"),
        (PDimension::Process, "(?i)\\bcarriage\\s+(?:of\\s+)?(?:dangerous\\s+)?(?:goods|class\\s+\\d)\\b", "carriage of goods"),
        (PDimension::Process, "(?i)\\bnational\\s+carriage\\b", "carriage of goods"),
        (PDimension::Process, "(?i)\\bcarriage\\s+by\\s+(?:road|rail|sea|air|vehicles?)\\b", "carriage of goods"),
        (PDimension::Place, "(?i)\\boutside\\s+Great\\s+Britain\\b", "outside Great Britain"),
        (PDimension::Place, "(?i)\\bGreat\\s+Britain\\b", "Great Britain"),
        (PDimension::Place, "(?i)\\bNorthern\\s+Ireland\\b", "Northern Ireland"),
        (PDimension::Place, "(?i)\\bUnited\\s+Kingdom\\b", "United Kingdom"),
        (PDimension::Place, "(?i)\\boffshore\\s+installation\\b", "offshore installation"),
        (PDimension::Place, "(?i)\\bterritorial\\s+(?:sea|waters?)\\b", "territorial sea"),
        (PDimension::Place, "(?i)\\bcontinental\\s+shelf\\b", "continental shelf"),
        (PDimension::Place, "(?i)\\bconstruction\\s+site\\b", "construction site"),
        (PDimension::Place, "(?i)\\bEngland(?:\\s+and\\s+Wales)?\\b", "England"),
        (PDimension::Place, "(?i)\\bWales\\b", "Wales"),
        (PDimension::Place, "(?i)\\bScotland\\b", "Scotland"),
        (PDimension::Place, "(?i)\\boffshore\\b", "offshore"),
        (PDimension::Place, "(?i)\\bmine(?:s)?\\b", "mine"),
        (PDimension::Place, "(?i)\\bquarr(?:y|ies)\\b", "quarry"),
        (PDimension::Place, "(?i)\\bfactor(?:y|ies)\\b", "factory"),
        (PDimension::Place, "(?i)\\bpremises\\b", "premises"),
        (PDimension::Place, "(?i)\\bworkplace(?:s)?\\b", "workplace"),
        (PDimension::Place, "(?i)\\bship(?:s)?\\b", "ship"),
        (PDimension::Place, "(?i)\\baircraft\\b", "aircraft"),
        (PDimension::Place, "(?i)\\bestablishment(?:s)?\\b", "establishment"),
        (PDimension::Plant, "(?i)\\bdangerous\\s+substance(?:s)?\\b", "dangerous substances"),
        (PDimension::Plant, "(?i)\\bdisplay\\s+screen\\s+equipment\\b", "display screen equipment"),
        (PDimension::Plant, "(?i)\\bpersonal\\s+protective\\s+equipment\\b", "personal protective equipment"),
        (PDimension::Plant, "(?i)\\b\\bPPE\\b\\b", "personal protective equipment"),
        (PDimension::Plant, "(?i)\\bwork\\s+equipment\\b", "work equipment"),
        (PDimension::Plant, "(?i)\\bpressure\\s+system(?:s)?\\b", "pressure systems"),
        (PDimension::Plant, "(?i)\\bdangerous\\s+goods\\b", "dangerous goods"),
        (PDimension::Plant, "(?i)\\bgas\\s+fitting(?:s)?\\b", "gas fittings"),
        (PDimension::Plant, "(?i)\\bionising\\s+radiation\\b", "ionising radiation"),
        (PDimension::Plant, "(?i)\\bbiological\\s+agent(?:s)?\\b", "biological agents"),
        (PDimension::Plant, "(?i)\\basbestos\\b", "asbestos"),
        (PDimension::Plant, "(?i)\\blead\\b", "lead"),
        (PDimension::Plant, "(?i)\\bexplosive(?:s)?\\b", "explosives"),
        (PDimension::Plant, "(?i)\\bpetroleum\\b", "petroleum"),
        (PDimension::Plant, "(?i)\\bchemical(?:s)?\\b", "chemicals"),
        (PDimension::Property, "(?i)\\bat\\s+work\\b", "at work"),
        (PDimension::Property, "(?i)\\b(?:five|5)\\s+or\\s+more\\s+employee\\b", "5 or more employees"),
        (PDimension::Property, "(?i)\\bsporadic\\s+and\\s+low\\s+intensity\\b", "sporadic and low intensity"),
        (PDimension::Property, "(?i)\\bcarried\\s+out\\s+solely\\s+by\\s+(?:the\\s+)?crew\\b", "carried out solely by crew"),
        (PDimension::Property, "(?i)\\bnormal\\s+ship[- ]?board\\s+activiti?es\\b", "normal shipboard activities"),
        (PDimension::Property, "(?i)\\bnot\\s+(?:liable|likely)\\s+to\\s+expose\\b", "not liable to expose persons"),
        (PDimension::Property, "(?i)\\bnot\\s+in\\s+prolonged\\s+use\\b", "not in prolonged use"),
        (PDimension::Property, "(?i)\\bon\\s+board\\s+(?:a\\s+)?transport\\b", "on board transport"),
        (PDimension::Sector, "(?i)\\bconstruction\\s+(?:industry|sector|project)\\b", "construction"),
        (PDimension::Sector, "(?i)\\bmining\\s+(?:industry|sector|operation)\\b", "mining"),
        (PDimension::Sector, "(?i)\\boffshore\\s+(?:oil|gas|petroleum|industry)\\b", "offshore oil & gas"),
        (PDimension::Sector, "(?i)\\bnuclear\\s+(?:industry|sector|installation|site)\\b", "nuclear"),
        (PDimension::Sector, "(?i)\\bchemical\\s+(?:industry|sector)\\b", "chemicals"),
        (PDimension::Sector, "(?i)\\bpetroleum\\s+(?:industry|sector)\\b", "petroleum"),
        (PDimension::Sector, "(?i)\\bgas\\s+(?:industry|sector|distribution)\\b", "gas supply"),
        (PDimension::Sector, "(?i)\\bmaritime\\b", "maritime"),
        (PDimension::Sector, "(?i)\\bshipping\\b", "maritime"),
        (PDimension::Sector, "(?i)\\bagricultur\\b", "agriculture"),
        (PDimension::Sector, "(?i)\\bwaste\\s+(?:management|disposal)\\b", "waste management"),
        (PDimension::Sector, "(?i)\\bwater\\s+(?:industry|undertaker|supply)\\b", "water industry"),
    ]
}

/// Occupational Health & Safety specialist dictionary (families starting with "OH&S").
pub open spec fn ohs_entries_spec() -> Seq<Entry> {
    seq![
        (PDimension::Person, "(?i)\\byoung\\s+person(?:s)?\\b", "young person"),
        (PDimension::Person, "(?i)\\bnew\\s+or\\s+expectant\\s+moth\\b", "new or expectant mother"),
        (PDimension::Person, "(?i)\\bprincipal\\s+contractor\\b", "principal contractor"),
        (PDimension::Person, "(?i)\\bprincipal\\s+designer\\b", "principal designer"),
        (PDimension::Person, "(?i)\\bdomestic\\s+client(?:s)?\\b", "domestic client"),
        (PDimension::Person, "(?i)\\bclient(?:s)?\\b", "client"),
        (PDimension::Process, "(?i)\\blifting\\s+operation(?:s)?\\b", "lifting operations"),
        (PDimension::Process, "(?i)\\bconfined\\s+space(?:s)?\\b", "confined spaces"),
        (PDimension::Process, "(?i)\\bprovision\\s+and\\s+use\\b", "provision and use"),
        (PDimension::Process, "(?i)\\bworking\\s+at\\s+height\\b", "work at height"),
        (PDimension::Process, "(?i)\\bwork(?:ing)?\\s+near\\s+voltage\\b", "work near voltage"),
        (PDimension::Process, "(?i)\\bfumigat(?:ions?|ants?|ing)\\b", "fumigation"),
        (PDimension::Process, "(?i)\\brelevant\\s+project\\b", "construction project"),
        (PDimension::Plant, "(?i)\\bpressure\\s+equipment\\b", "pressure equipment"),
        (PDimension::Plant, "(?i)\\blifting\\s+equipment\\b", "lifting equipment"),
        (PDimension::Plant, "(?i)\\bmachiner(?:y|ies)\\b", "machinery"),
        (PDimension::Plant, "(?i)\\blift(?:s)?(?:\\s+and\\s+escalator)?\\b", "lifts"),
        (PDimension::Plant, "(?i)\\belectrical\\s+equipment\\b", "electrical equipment"),
        (PDimension::Plant, "(?i)\\bscaffold(?:s|ing)?\\b", "scaffolding"),
        (PDimension::Plant, "(?i)\\bsafety\\s+sign(?:s)?\\b", "safety signs"),
        (PDimension::Plant, "(?i)\\bfirst[- ]?aid\\b", "first-aid"),
        (PDimension::Plant, "(?i)\\bdoor[,\\s]+gate[,\\s]+(?:or\\s+)?hatch\\b", "door, gate or hatch"),
    ]
}

pub fn ohs_entries() -> (r: Vec<Entry>)
    ensures
        r@ == ohs_entries_spec(),
{
    vec![
        (PDimension::Person, "(?i)\\byoung\\s+person(?:s)?\\b", "young person"),
        (PDimension::Person, "(?i)\\bnew\\s+or\\s+expectant\\s+moth\\b", "new or expectant mother"),
        (PDimension::Person, "(?i)\\bprincipal\\s+contractor\\b", "principal contractor"),
        (PDimension::Person, "(?i)\\bprincipal\\s+designer\\b", "principal designer"),
        (PDimension::Person, "(?i)\\bdomestic\\s+client(?:s)?\\b", "domestic client"),
        (PDimension::Person, "(?i)\\bclient(?:s)?\\b", "client"),
        (PDimension::Process, "(?i)\\blifting\\s+operation(?:s)?\\b", "lifting operations"),
        (PDimension::Process, "(?i)\\bconfined\\s+space(?:s)?\\b", "confined spaces"),
        (PDimension::Process, "(?i)\\bprovision\\s+and\\s+use\\b", "provision and use"),
        (PDimension::Process, "(?i)\\bworking\\s+at\\s+height\\b", "work at height"),
        (PDimension::Process, "(?i)\\bwork(?:ing)?\\s+near\\s+voltage\\b", "work near voltage"),
        (PDimension::Process, "(?i)\\bfumigat(?:ions?|ants?|ing)\\b", "fumigation"),
        (PDimension::Process, "(?i)\\brelevant\\s+project\\b", "construction project"),
        (PDimension::Plant, "(?i)\\bpressure\\s+equipment\\b", "pressure equipment"),
        (PDimension::Plant, "(?i)\\blifting\\s+equipment\\b", "lifting equipment"),
        (PDimension::Plant, "(?i)\\bmachiner(?:y|ies)\\b", "machinery"),
        (PDimension::Plant, "(?i)\\blift(?:s)?(?:\\s+and\\s+escalator)?\\b", "lifts"),
        (PDimension::Plant, "(?i)\\belectrical\\s+equipment\\b", "electrical equipment"),
        (PDimension::Plant, "(?i)\\bscaffold(?:s|ing)?\\b", "scaffolding"),
        (PDimension::Plant, "(?i)\\bsafety\\s+sign(?:s)?\\b", "safety signs"),
        (PDimension::Plant, "(?i)\\bfirst[- ]?aid\\b", "first-aid"),
        (PDimension::Plant, "(?i)\\bdoor[,\\s]+gate[,\\s]+(?:or\\s+)?hatch\\b", "door, gate or hatch"),
    ]
}

/// Fire Safety and Dangerous/Explosive Substances specialist dictionary (families starting with "FIRE").
pub open spec fn fire_entries_spec() -> Seq<Entry> {
    seq![
        (PDimension::Person, "(?i)\\bfire\\s+(?:and\\s+rescue\\s+)?authority\\b", "fire authority"),
        (PDimension::Person, "(?i)\\benforcing\\s+authority\\b", "enforcing authority"),
        (PDimension::Person, "(?i)\\blicensing\\s+authority\\b", "licensing authority"),
        (PDimension::Person, "(?i)\\bChief\\s+Inspector\\b", "chief inspector"),
        (PDimension::Process, "(?i)\\btransport(?:ing|ation)?\\s+(?:of\\s+)?(?:fireworks|explosives|ammunition|dangerous\\s+goods)\\b", "transporting dangerous goods"),
        (PDimension::Process, "(?i)\\btransfer\\s+(?:of\\s+)?(?:any\\s+)?(?:component|explosives?|ammunition)\\b", "transfer of explosives"),
        (PDimension::Process, "(?i)\\bmanufacture\\s+(?:or\\s+)?(?:compression|storage|keeping)\\b", "manufacture of explosives"),
        (PDimension::Process, "(?i)\\bfilling\\s+(?:of\\s+)?(?:any\\s+)?cylinder\\b", "filling of cylinders"),
        (PDimension::Process, "(?i)\\bstorage\\s+of\\s+(?:explosives?|fireworks?|ammunition)\\b", "storage of explosives"),
        (PDimension::Place, "(?i)\\b(?:nuclear\\s+)?harbour\\s+area\\b", "harbour area"),
        (PDimension::Place, "(?i)\\bharbour(?:s)?\\b", "harbour"),
        (PDimension::Place, "(?i)\\blicensed\\s+premises\\b", "licensed premises"),
        (PDimension::Place, "(?i)\\bpetroleum\\s+store\\b", "petroleum store"),
        (PDimension::Place, "(?i)\\bmagazine(?:s)?\\b", "magazine"),
        (PDimension::Plant, "(?i)\\bsmall\\s+arms\\s+ammunition\\b", "small arms ammunition"),
        (PDimension::Plant, "(?i)\\bpyrotechnic\\s+article(?:s)?\\b", "pyrotechnic articles"),
        (PDimension::Plant, "(?i)\\bammonium\\s+nitrate(?:\\s+blasting)?\\b", "ammonium nitrate"),
        (PDimension::Plant, "(?i)\\bfire\\s+alarm(?:s)?\\b", "fire alarm"),
        (PDimension::Plant, "(?i)\\bsmoke\\s+detector(?:s)?\\b", "smoke detector"),
        (PDimension::Plant, "(?i)\\bsprinkler(?:s)?(?:\\s+system)?\\b", "sprinkler system"),
        (PDimension::Plant, "(?i)\\bfire\\s+extinguisher(?:s)?\\b", "fire extinguisher"),
        (PDimension::Plant, "(?i)\\bfirework(?:s)?\\b", "fireworks"),
        (PDimension::Plant, "(?i)\\bammunition\\b", "ammunition"),
        (PDimension::Plant, "(?i)\\bdetonator(?:s)?\\b", "detonator"),
    ]
}

pub fn fire_entries() -> (r: Vec<Entry>)
    ensures
        r@ == fire_entries_spec(),
{
    vec![
        (PDimension::Person, "(?i)\\bfire\\s+(?:and\\s+rescue\\s+)?authority\\b", "fire authority"),
        (PDimension::Person, "(?i)\\benforcing\\s+authority\\b", "enforcing authority"),
        (PDimension::Person, "(?i)\\blicensing\\s+authority\\b", "licensing authority"),
        (PDimension::Person, "(?i)\\bChief\\s+Inspector\\b", "chief inspector"),
        (PDimension::Process, "(?i)\\btransport(?:ing|ation)?\\s+(?:of\\s+)?(?:fireworks|explosives|ammunition|dangerous\\s+goods)\\b", "transporting dangerous goods"),
        (PDimension::Process, "(?i)\\btransfer\\s+(?:of\\s+)?(?:any\\s+)?(?:component|explosives?|ammunition)\\b", "transfer of explosives"),
        (PDimension::Process, "(?i)\\bmanufacture\\s+(?:or\\s+)?(?:compression|storage|keeping)\\b", "manufacture of explosives"),
        (PDimension::Process, "(?i)\\bfilling\\s+(?:of\\s+)?(?:any\\s+)?cylinder\\b", "filling of cylinders"),
        (PDimension::Process, "(?i)\\bstorage\\s+of\\s+(?:explosives?|fireworks?|ammunition)\\b", "storage of explosives"),
        (PDimension::Place, "(?i)\\b(?:nuclear\\s+)?harbour\\s+area\\b", "harbour area"),
        (PDimension::Place, "(?i)\\bharbour(?:s)?\\b", "harbour"),
        (PDimension::Place, "(?i)\\blicensed\\s+premises\\b", "licensed premises"),
        (PDimension::Place, "(?i)\\bpetroleum\\s+store\\b", "petroleum store"),
        (PDimension::Place, "(?i)\\bmagazine(?:s)?\\b", "magazine"),
        (PDimension::Plant, "(?i)\\bsmall\\s+arms\\s+ammunition\\b", "small arms ammunition"),
        (PDimension::Plant, "(?i)\\bpyrotechnic\\s+article(?:s)?\\b", "pyrotechnic articles"),
        (PDimension::Plant, "(?i)\\bammonium\\s+nitrate(?:\\s+blasting)?\\b", "ammonium nitrate"),
        (PDimension::Plant, "(?i)\\bfire\\s+alarm(?:s)?\\b", "fire alarm"),
        (PDimension::Plant, "(?i)\\bsmoke\\s+detector(?:s)?\\b", "smoke detector"),
        (PDimension::Plant, "(?i)\\bsprinkler(?:s)?(?:\\s+system)?\\b", "sprinkler system"),
        (PDimension::Plant, "(?i)\\bfire\\s+extinguisher(?:s)?\\b", "fire extinguisher"),
        (PDimension::Plant, "(?i)\\bfirework(?:s)?\\b", "fireworks"),
        (PDimension::Plant, "(?i)\\bammunition\\b", "ammunition"),
        (PDimension::Plant, "(?i)\\bdetonator(?:s)?\\b", "detonator"),
    ]
}

/// Dictionary entries that apply for a law family: core always, then the
/// specialist dictionary whose family prefix matches.
pub open spec fn specialist_spec(family: Option<Seq<char>>) -> Seq<Entry> {
    match family {
        Some(f) => if "OH&S"@.is_prefix_of(f) {
            ohs_entries_spec()
        } else if "FIRE"@.is_prefix_of(f) {
            fire_entries_spec()
        } else {
            seq![]
        },
        None => seq![],
    }
}

pub open spec fn entries_for(family: Option<Seq<char>>) -> Seq<Entry> {
    core_entries_spec() + specialist_spec(family)
}

pub open spec fn opt_view(family: Option<&str>) -> Option<Seq<char>> {
    match family {
        Some(f) => Some(f@),
        None => None,
    }
}

fn specialist_dicts_for(family: Option<&str>) -> (r: Vec<Entry>)
    ensures
        r@ == specialist_spec(opt_view(family)),
{
    match family {
        Some(f) => if starts_with_str(f, "OH&S") {
            ohs_entries()
        } else if starts_with_str(f, "FIRE") {
            fire_entries()
        } else {
            Vec::new()
        },
        None => Vec::new(),
    }
}

fn entries(family: Option<&str>) -> (r: Vec<Entry>)
    ensures
        r@ == entries_for(opt_view(family)),
{
    let mut v = core_entries();
    let mut s = specialist_dicts_for(family);
    v.append(&mut s);
    v
}

/// The tags of `text`: for each dictionary entry in order whose pattern matches,
/// its (dimension, term), each pair kept once.
pub open spec fn collect_tags(es: Seq<Entry>, text: Seq<char>) -> Seq<(PDimension, Seq<char>)>
    decreases es.len(),
{
    if es.len() == 0 {
        seq![]
    } else {
        let prev = collect_tags(es.drop_last(), text);
        let e = es.last();
        if is_match_spec(e.1@, text) && !prev.contains((e.0, e.2@)) {
            prev.push((e.0, e.2@))
        } else {
            prev
        }
    }
}

pub open spec fn tags_spec(text: Seq<char>, family: Option<Seq<char>>) -> Seq<(PDimension, Seq<char>)> {
    collect_tags(entries_for(family), text)
}

fn has_tag(tags: &Vec<PDimensionTag>, dim: PDimension, term: &str) -> (r: bool)
    ensures
        r == tags@.map_values(|t: PDimensionTag| t@).contains((dim, term@)),
{
    let ghost tv = tags@.map_values(|t: PDimensionTag| t@);
    let mut i: usize = 0;
    while i < tags.len()
        invariant
            i <= tags.len(),
            tv == tags@.map_values(|t: PDimensionTag| t@),
            forall|j: int| 0 <= j < i ==> tv[j] != (dim, term@),
        decreases tags.len() - i,
    {
        if tags[i].dimension == dim && str_eq(tags[i].term.as_str(), term) {
            proof {
                assert(tv[i as int] == (dim, term@));
            }
            return true;
        }
        i += 1;
    }
    false
}

/// All p-dimension tags found in `text` (core dictionaries, plus the specialist
/// dictionaries of `family`).
fn extract_tags(text: &str, family: Option<&str>) -> (r: Vec<PDimensionTag>)
    ensures
        r@.map_values(|t: PDimensionTag| t@) == tags_spec(text@, opt_view(family)),
{
    let es = entries(family);
    let mut tags: Vec<PDimensionTag> = Vec::new();
    let mut i: usize = 0;
    while i < es.len()
        invariant
            i <= es.len(),
            es@ == entries_for(opt_view(family)),
            tags@.map_values(|t: PDimensionTag| t@) == collect_tags(es@.take(i as int), text@),
        decreases es.len() - i,
    {
        let (dim, pat, term) = es[i];
        proof {
            assert(es@.take(i + 1).drop_last() == es@.take(i as int));
            assert(es@.take(i + 1).last() == es@[i as int]);
        }
        if is_match(pat, text) && !has_tag(&tags, dim, term) {
            let t = PDimensionTag { dimension: dim, term: owned(term) };
            tags.push(t);
            proof {
                assert(tags@.map_values(|t: PDimensionTag| t@) =~= collect_tags(es@.take(i as int), text@).push((dim, term@)));
            }
        }
        i += 1;
    }
    proof {
        assert(es@.take(es@.len() as int) == es@);
    }
    tags
}

/// Polarity of `text`: negative before extension before positive.
pub open spec fn polarity_spec(text: Seq<char>) -> Option<RulePolarity> {
    if is_match_spec(DISAPPLIES_RE@, text) {
        Some(RulePolarity::DisappliesTo)
    } else if is_match_spec(EXTENDS_RE@, text) {
        Some(RulePolarity::ExtendsTo)
    } else if is_match_spec(APPLIES_RE@, text) {
        Some(RulePolarity::AppliesTo)
    } else {
        None
    }
}

fn detect_polarity(text: &str) -> (r: Option<RulePolarity>)
    ensures
        r == polarity_spec(text@),
{
    if is_match(DISAPPLIES_RE, text) {
        return Some(RulePolarity::DisappliesTo);
    }
    if is_match(EXTENDS_RE, text) {
        return Some(RulePolarity::ExtendsTo);
    }
    if is_match(APPLIES_RE, text) {
        return Some(RulePolarity::AppliesTo);
    }
    None
}

/// The matched texts, each kept only when no earlier match has the same lowercase form.
pub open spec fn first_by_lowercase(ms: Seq<Seq<char>>) -> Seq<Seq<char>>
    decreases ms.len(),
{
    if ms.len() == 0 {
        seq![]
    } else {
        let prev = first_by_lowercase(ms.drop_last());
        if ms.drop_last().map_values(|m: Seq<char>| str_lowercase(m)).contains(str_lowercase(ms.last())) {
            prev
        } else {
            prev.push(ms.last())
        }
    }
}

pub open spec fn cross_refs_spec(text: Seq<char>) -> Seq<Seq<char>> {
    first_by_lowercase(regex_find_iter(CROSS_REF_RE@, text).map_values(|m: MatchPieces| m.1))
}

fn contains_string(v: &Vec<String>, s: &str) -> (r: bool)
    ensures
        r == v@.map_values(|x: String| x@).contains(s@),
{
    let ghost vv = v@.map_values(|x: String| x@);
    let mut i: usize = 0;
    while i < v.len()
        invariant
            i <= v.len(),
            vv == v@.map_values(|x: String| x@),
            forall|j: int| 0 <= j < i ==> vv[j] != s@,
        decreases v.len() - i,
    {
        if str_eq(v[i].as_str(), s) {
            proof {
                assert(vv[i as int] == s@);
            }
            return true;
        }
        i += 1;
    }
    false
}

/// References to other provisions, each kept once (case-insensitively), in order.
fn detect_cross_refs(text: &str) -> (r: Vec<String>)
    ensures
        r@.map_values(|s: String| s@) == cross_refs_spec(text@),
{
    let ms = find_iter(CROSS_REF_RE, text);
    let ghost all = regex_find_iter(CROSS_REF_RE@, text@).map_values(|m: MatchPieces| m.1);
    proof {
        assert(all =~= ms@.map_values(|m: (String, String)| m.1@));
    }
    let mut seen: Vec<String> = Vec::new();
    let mut out: Vec<String> = Vec::new();
    let mut i: usize = 0;
    while i < ms.len()
        invariant
            i <= ms.len(),
            all =~= ms@.map_values(|m: (String, String)| m.1@),
            seen@.map_values(|x: String| x@) == all.take(i as int).map_values(|m: Seq<char>| str_lowercase(m)),
            out@.map_values(|x: String| x@) == first_by_lowercase(all.take(i as int)),
        decreases ms.len() - i,
    {
        let low = to_lowercase(ms[i].1.as_str());
        proof {
            assert(all.take(i + 1).drop_last() == all.take(i as int));
            assert(all.take(i + 1).last() == ms@[i as int].1@);
        }
        if !contains_string(&seen, low.as_str()) {
            let m = owned(ms[i].1.as_str());
            out.push(m);
            proof {
                assert(out@.map_values(|x: String| x@) =~= first_by_lowercase(all.take(i as int)).push(ms@[i as int].1@));
            }
        }
        proof {
            assert(low@ == str_lowercase(all[i as int]));
            assert(all.take(i + 1)[i as int] == all[i as int]);
        }
        let ghost sv = seen@.map_values(|x: String| x@);
        let ghost lv = low@;
        seen.push(low);
        proof {
            assert(seen@.map_values(|x: String| x@) =~= sv.push(lv));
            assert(all.take(i + 1).map_values(|m: Seq<char>| str_lowercase(m))
                =~= all.take(i as int).map_values(|m: Seq<char>| str_lowercase(m)).push(str_lowercase(all[i as int])));
            assert(seen@.map_values(|x: String| x@) =~= all.take(i + 1).map_values(|m: Seq<char>| str_lowercase(m)));
        }
        i += 1;
    }
    proof {
        assert(all.take(ms@.len() as int) == all);
    }
    out
}

/// The rule built from `text` with polarity `p`.
pub open spec fn rule_spec(p: RulePolarity, text: Seq<char>, family: Option<Seq<char>>) -> RuleView {
    (p, tags_spec(text, family), trim(text), cross_refs_spec(text))
}

/// A compound provision split at its first "but ... shall" / "except that" /
/// "save that" into two rules, when both halves have a polarity and they differ.
pub open spec fn split_spec(text: Seq<char>, family: Option<Seq<char>>) -> Option<Seq<RuleView>> {
    let sp = spans_spec(SPLIT_RE@, text);
    if sp.len() == 0 {
        None
    } else {
        let a = text.subrange(0, sp[0].0);
        let b = text.subrange(sp[0].0, text.len() as int);
        match (polarity_spec(a), polarity_spec(b)) {
            (Some(pa), Some(pb)) => if pa == pb {
                None
            } else {
                Some(seq![rule_spec(pa, a, family), rule_spec(pb, b, family)])
            },
            _ => None,
        }
    }
}

/// The fitness rules of `raw`.
pub open spec fn extract_spec(raw: Seq<char>, family: Option<Seq<char>>) -> Seq<RuleView> {
    let text = trim(raw);
    if text.len() == 0 {
        seq![]
    } else if is_match_spec(DISAPPLIES_RE@, text) && is_match_spec(APPLIES_RE@, text)
        && split_spec(text, family) is Some {
        split_spec(text, family)->0
    } else {
        match polarity_spec(text) {
            Some(p) => seq![rule_spec(p, text, family)],
            None => seq![],
        }
    }
}

fn make_rule(p: RulePolarity, text: &str, family: Option<&str>) -> (r: FitnessRule)
    ensures
        r@ == rule_spec(p, text@, opt_view(family)),
{
    let tags = extract_tags(text, family);
    let raw_text = crate::text::trim_str(text);
    let cross_refs = detect_cross_refs(text);
    FitnessRule { polarity: p, tags, raw_text, cross_refs }
}

/// Split a compound provision into separate rules of different polarity.
fn try_split_compound(text: &str, family: Option<&str>) -> (r: Option<Vec<FitnessRule>>)
    ensures
        match r {
            Some(v) => split_spec(text@, opt_view(family)) == Some(v@.map_values(|x: FitnessRule| x@)),
            None => split_spec(text@, opt_view(family)) is None,
        },
{
    let (start, _end) = match find_first(SPLIT_RE, text) {
        Some(p) => p,
        None => return None,
    };
    let t = to_chars(text);
    let part_a = from_range(&t, 0, start);
    let part_b = from_range(&t, start, t.len());
    let pol_a = match detect_polarity(part_a.as_str()) {
        Some(p) => p,
        None => return None,
    };
    let pol_b = match detect_polarity(part_b.as_str()) {
        Some(p) => p,
        None => return None,
    };
    if pol_a == pol_b {
        return None;
    }
    let ra = make_rule(pol_a, part_a.as_str(), family);
    let rb = make_rule(pol_b, part_b.as_str(), family);
    let v = vec![ra, rb];
    proof {
        assert(v@.map_values(|x: FitnessRule| x@) =~= seq![ra@, rb@]);
    }
    Some(v)
}

/// Extract fitness rules from an Application+Scope provision text.
///
/// A provision with both a disapplication and an application is split into two
/// rules when possible; otherwise one rule with the detected polarity; no rule
/// when no polarity pattern is found or the text is blank.
pub fn extract(text: &str, family: Option<&str>) -> (r: Vec<FitnessRule>)
    ensures
        r@.map_values(|x: FitnessRule| x@) == extract_spec(text@, opt_view(family)),
{
    let t = crate::text::trim_str(text);
    let s = t.as_str();
    if s.is_empty() {
        return Vec::new();
    }
    if is_match(DISAPPLIES_RE, s) && is_match(APPLIES_RE, s) {
        if let Some(rules) = try_split_compound(s, family) {
            return rules;
        }
    }
    match detect_polarity(s) {
        Some(p) => {
            let rule = make_rule(p, s, family);
            proof {
                assert(crate::text::trim(t@) == t@) by {
                    crate::text::lemma_trim_idempotent(text@);
                }
            }
            let v = vec![rule];
            proof {
                assert(v@.map_values(|x: FitnessRule| x@) =~= seq![rule@]);
            }
            v
        },
        None => Vec::new(),
    }
}

/// Distinct canonical terms of the entries, in first-seen order.
pub open spec fn distinct_terms(es: Seq<Entry>) -> Seq<Seq<char>>
    decreases es.len(),
{
    if es.len() == 0 {
        seq![]
    } else {
        let prev = distinct_terms(es.drop_last());
        if prev.contains(es.last().2@) {
            prev
        } else {
            prev.push(es.last().2@)
        }
    }
}

/// Distinct (dimension, term) pairs of the entries, in first-seen order.
pub open spec fn distinct_dim_terms(es: Seq<Entry>) -> Seq<(PDimension, Seq<char>)>
    decreases es.len(),
{
    if es.len() == 0 {
        seq![]
    } else {
        let prev = distinct_dim_terms(es.drop_last());
        if prev.contains((es.last().0, es.last().2@)) {
            prev
        } else {
            prev.push((es.last().0, es.last().2@))
        }
    }
}

proof fn lemma_distinct_terms_unique(es: Seq<Entry>)
    ensures
        forall|i: int, j: int| 0 <= i < j < distinct_terms(es).len() ==> distinct_terms(es)[i] != distinct_terms(es)[j],
    decreases es.len(),
{
    if es.len() > 0 {
        let prev = distinct_terms(es.drop_last());
        lemma_distinct_terms_unique(es.drop_last());
        let r = distinct_terms(es);
        if !prev.contains(es.last().2@) {
            assert forall|i: int, j: int| 0 <= i < j < r.len() implies r[i] != r[j] by {
                if j == prev.len() {
                    assert(r[i] == prev[i]);
                } else {
                    assert(r[i] == prev[i] && r[j] == prev[j]);
                }
            }
        }
    }
}

proof fn lemma_distinct_terms_prefix(a: Seq<Entry>, b: Seq<Entry>)
    ensures
        distinct_terms(a).is_prefix_of(distinct_terms(a + b)),
    decreases b.len(),
{
    if b.len() == 0 {
        assert(a + b =~= a);
    } else {
        lemma_distinct_terms_prefix(a, b.drop_last());
        assert((a + b).drop_last() =~= a + b.drop_last());
        assert((a + b).last() == b.last());
        let prev = distinct_terms(a + b.drop_last());
        let r = distinct_terms(a + b);
        let d = distinct_terms(a);
        assert forall|i: int| 0 <= i < d.len() implies r[i] == d[i] by {
            assert(prev[i] == d[i]);
            if !prev.contains(b.last().2@) {
                assert(r == prev.push(b.last().2@));
            }
        }
    }
}

/// The canonical terms hold no term twice; those of the core dictionaries
/// come first, in the same order, whatever the family; and a family that
/// starts with neither `OH&S` nor `FIRE` (or none) adds nothing to them.
pub proof fn lemma_all_canonical_terms(family: Option<Seq<char>>)
    ensures
        ({
            let r = distinct_terms(entries_for(family));
            let core = distinct_terms(entries_for(None));
            &&& forall|i: int, j: int| 0 <= i < j < r.len() ==> r[i] != r[j]
            &&& core.is_prefix_of(r)
            &&& (family is None || (!"OH&S"@.is_prefix_of(family->0) && !"FIRE"@.is_prefix_of(family->0))) ==> r == core
        }),
{
    lemma_distinct_terms_unique(entries_for(family));
    assert(entries_for(None) =~= core_entries_spec());
    lemma_distinct_terms_prefix(core_entries_spec(), specialist_spec(family));
    if family is None || (!"OH&S"@.is_prefix_of(family->0) && !"FIRE"@.is_prefix_of(family->0)) {
        assert(entries_for(family) =~= core_entries_spec());
    }
}

/// All canonical terms of the core dictionaries, plus those of the specialist
/// dictionaries of `family`, each once.
pub fn all_canonical_terms(family: Option<&str>) -> (r: Vec<&'static str>)
    ensures
        r@.map_values(|s: &str| s@) == distinct_terms(entries_for(opt_view(family))),
{
    let es = entries(family);
    let mut terms: Vec<&'static str> = Vec::new();
    let mut i: usize = 0;
    while i < es.len()
        invariant
            i <= es.len(),
            es@ == entries_for(opt_view(family)),
            terms@.map_values(|s: &str| s@) == distinct_terms(es@.take(i as int)),
        decreases es.len() - i,
    {
        let term = es[i].2;
        proof {
            assert(es@.take(i + 1).drop_last() == es@.take(i as int));
            assert(es@.take(i + 1).last() == es@[i as int]);
        }
        let ghost tv = terms@.map_values(|s: &str| s@);
        let mut found = false;
        let mut j: usize = 0;
        while j < terms.len()
            invariant
                j <= terms.len(),
                tv == terms@.map_values(|s: &str| s@),
                found == exists|k: int| 0 <= k < j && tv[k] == term@,
            decreases terms.len() - j,
        {
            proof {
                assert(tv[j as int] == terms@[j as int]@);
            }
            if str_eq(terms[j], term) {
                found = true;
            }
            proof {
                if found {
                    if tv[j as int] == term@ {
                        assert(0 <= j < j + 1 && tv[j as int] == term@);
                    }
                } else {
                    assert(forall|k: int| 0 <= k < j + 1 ==> tv[k] != term@);
                }
            }
            j += 1;
        }
        if !found {
            terms.push(term);
            proof {
                assert(terms@.map_values(|s: &str| s@) =~= tv.push(term@));
            }
        }
        i += 1;
    }
    proof {
        assert(es@.take(es@.len() as int) == es@);
    }
    terms
}

/// All (dimension, canonical term) pairs of the core dictionaries, plus those of
/// the specialist dictionaries of `family`, each once.
pub fn all_terms_by_dimension(family: Option<&str>) -> (r: Vec<(PDimension, &'static str)>)
    ensures
        r@.map_values(|p: (PDimension, &str)| (p.0, p.1@)) == distinct_dim_terms(entries_for(opt_view(family))),
{
    let es = entries(family);
    let mut out: Vec<(PDimension, &'static str)> = Vec::new();
    let mut i: usize = 0;
    while i < es.len()
        invariant
            i <= es.len(),
            es@ == entries_for(opt_view(family)),
            out@.map_values(|p: (PDimension, &str)| (p.0, p.1@)) == distinct_dim_terms(es@.take(i as int)),
        decreases es.len() - i,
    {
        let (dim, _pat, term) = es[i];
        proof {
            assert(es@.take(i + 1).drop_last() == es@.take(i as int));
            assert(es@.take(i + 1).last() == es@[i as int]);
        }
        let ghost ov = out@.map_values(|p: (PDimension, &str)| (p.0, p.1@));
        let mut found = false;
        let mut j: usize = 0;
        while j < out.len()
            invariant
                j <= out.len(),
                ov == out@.map_values(|p: (PDimension, &str)| (p.0, p.1@)),
                found == exists|k: int| 0 <= k < j && ov[k] == (dim, term@),
            decreases out.len() - j,
        {
            proof {
                assert(ov[j as int] == (out@[j as int].0, out@[j as int].1@));
            }
            if out[j].0 == dim && str_eq(out[j].1, term) {
                found = true;
            }
            proof {
                if found {
                    if ov[j as int] == (dim, term@) {
                        assert(0 <= j < j + 1 && ov[j as int] == (dim, term@));
                    }
                } else {
                    assert(forall|k: int| 0 <= k < j + 1 ==> ov[k] != (dim, term@));
                }
            }
            j += 1;
        }
        if !found {
            out.push((dim, term));
            proof {
                assert(out@.map_values(|p: (PDimension, &str)| (p.0, p.1@)) =~= ov.push((dim, term@)));
            }
        }
        i += 1;
    }
    proof {
        assert(es@.take(es@.len() as int) == es@);
    }
    out
}

} // verus!
