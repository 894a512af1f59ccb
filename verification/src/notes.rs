//! Structured meeting-notes templates, the notes generator and the
//! three-part summary generator.
use vstd::prelude::*;

use crate::llm::LLMProvider;
use crate::text::{
    chars_of, is_blank, is_blank_str, owned, push_char, push_dec, push_str, string_of_range, trim,
    trimmed_chars, trimmed_string,
};

verus! {

/// Output format of one section.
#[derive(Debug, Clone, Copy, PartialEq, Eq, Structural)]
pub enum SectionFormat {
    Paragraph,
    List,
    String,
}

pub open spec fn format_name(f: SectionFormat) -> Seq<char> {
    match f {
        SectionFormat::Paragraph => "paragraph"@,
        SectionFormat::List => "list"@,
        SectionFormat::String => "string"@,
    }
}

impl SectionFormat {
    pub fn as_str(&self) -> (r: &'static str)
        ensures
            r@ == format_name(*self),
    {
        match self {
            SectionFormat::Paragraph => "paragraph",
            SectionFormat::List => "list",
            SectionFormat::String => "string",
        }
    }
}

/// One template section.
#[derive(Debug)]
pub struct TemplateSection {
    pub title: String,
    pub instruction: String,
    pub format: SectionFormat,
    /// Optional item-format hint (such as table column heads).
    pub item_format: Option<String>,
}

pub type SectionView = (Seq<char>, Seq<char>, SectionFormat, Option<Seq<char>>);

pub type TemplateView = (Seq<char>, Seq<char>, Seq<char>, Seq<SectionView>);

impl View for TemplateSection {
    type V = SectionView;

    open spec fn view(&self) -> SectionView {
        (
            self.title@,
            self.instruction@,
            self.format,
            match self.item_format {
                Some(s) => Some(s@),
                None => None,
            },
        )
    }
}

/// A notes template.
#[derive(Debug)]
pub struct Template {
    pub id: String,
    pub name: String,
    pub description: String,
    pub sections: Vec<TemplateSection>,
}

impl View for Template {
    type V = TemplateView;

    open spec fn view(&self) -> TemplateView {
        (self.id@, self.name@, self.description@, self.sections@.map_values(|s: TemplateSection| s@))
    }
}

/// First section (in order) whose title or instruction is blank.
pub open spec fn bad_section(secs: Seq<SectionView>, i: int) -> bool {
    0 <= i < secs.len() && (is_blank(secs[i].0) || is_blank(secs[i].1)) && forall|k: int|
        0 <= k < i ==> !(is_blank((#[trigger] secs[k]).0) || is_blank(secs[k].1))
}

/// The outcome of validating a template: the first problem found, if any.
pub open spec fn validate_spec(t: TemplateView) -> Result<(), Seq<char>> {
    if is_blank(t.0) || is_blank(t.1) {
        Err("模板 id/name 不能为空"@)
    } else if t.3.len() == 0 {
        Err("模板 '"@ + t.1 + "' 至少需要一个分节"@)
    } else if exists|i: int| bad_section(t.3, i) {
        let i = choose|i: int| bad_section(t.3, i);
        Err("模板 '"@ + t.1 + "' 分节 "@ + crate::text::dec(i as nat) + " 标题/指令为空"@)
    } else {
        Ok(())
    }
}

pub open spec fn result_view(r: Result<(), String>) -> Result<(), Seq<char>> {
    match r {
        Ok(()) => Ok(()),
        Err(e) => Err(e@),
    }
}

/// Markdown skeleton: a title line, then one heading per section.
pub open spec fn markdown_structure(secs: Seq<SectionView>) -> Seq<char>
    decreases secs.len(),
{
    if secs.len() == 0 {
        "# （会议标题）\n\n"@
    } else {
        markdown_structure(secs.drop_last()) + "## "@ + secs.last().0 + "\n\n"@
    }
}

/// The instruction line of one section (and its item format, if any).
pub open spec fn section_instruction(s: SectionView) -> Seq<char> {
    "- 分节「"@ + s.0 + "」（"@ + format_name(s.2) + "）："@ + s.1 + "\n"@ + match s.3 {
        Some(f) => "  - 条目格式：`"@ + f + "`\n"@,
        None => Seq::empty(),
    }
}

/// Section instructions for the LLM.
pub open spec fn instructions(secs: Seq<SectionView>) -> Seq<char>
    decreases secs.len(),
{
    if secs.len() == 0 {
        "- 为整个纪要生成简洁标题（# 一级标题）。\n"@
    } else {
        instructions(secs.drop_last()) + section_instruction(secs.last())
    }
}

impl Template {
    /// Checks the template's structure.
    pub fn validate(&self) -> (r: Result<(), String>)
        ensures
            result_view(r) == validate_spec(self@),
    {
        let ghost secs = self@.3;
        if is_blank_str(self.id.as_str()) || is_blank_str(self.name.as_str()) {
            return Err(owned("模板 id/name 不能为空"));
        }
        if self.sections.len() == 0 {
            let mut e = owned("模板 '");
            push_str(&mut e, self.name.as_str());
            push_str(&mut e, "' 至少需要一个分节");
            return Err(e);
        }
        let mut i: usize = 0;
        while i < self.sections.len()
            invariant
                i <= self.sections.len(),
                secs == self@.3,
                !is_blank(self@.0) && !is_blank(self@.1),
                secs.len() > 0,
                forall|k: int| 0 <= k < i ==> !(is_blank((#[trigger] secs[k]).0) || is_blank(secs[k].1)),
            decreases self.sections.len() - i,
        {
            let s = &self.sections[i];
            assert(secs[i as int] == s@);
            if is_blank_str(s.title.as_str()) || is_blank_str(s.instruction.as_str()) {
                assert(bad_section(secs, i as int));
                proof {
                    let c = choose|c: int| bad_section(secs, c);
                    assert(bad_section(secs, c));
                    assert(c == i) by {
                        if c < i {
                            assert(!(is_blank(secs[c].0) || is_blank(secs[c].1)));
                        } else if c > i {
                            assert(is_blank(secs[i as int].0) || is_blank(secs[i as int].1));
                            assert(!(is_blank(secs[i as int].0) || is_blank(secs[i as int].1)));
                        }
                    }
                }
                let mut e = owned("模板 '");
                push_str(&mut e, self.name.as_str());
                push_str(&mut e, "' 分节 ");
                push_dec(&mut e, i as u64);
                push_str(&mut e, " 标题/指令为空");
                proof {
                    assert(!(is_blank(self@.0) || is_blank(self@.1)));
                    assert(self@.3.len() != 0);
                    assert(e@ =~= "模板 '"@ + self@.1 + "' 分节 "@ + crate::text::dec(i as nat) + " 标题/指令为空"@);
                }
                return Err(e);
            }
            i += 1;
        }
        assert(!exists|c: int| bad_section(secs, c));
        Ok(())
    }

    /// Markdown skeleton (title plus a placeholder heading per section).
    pub fn to_markdown_structure(&self) -> (md: String)
        ensures
            md@ == markdown_structure(self@.3),
    {
        let ghost secs = self@.3;
        let mut md = owned("# （会议标题）\n\n");
        let mut i: usize = 0;
        while i < self.sections.len()
            invariant
                i <= self.sections.len(),
                secs == self@.3,
                md@ == markdown_structure(secs.take(i as int)),
            decreases self.sections.len() - i,
        {
            let ghost before = md@;
            push_str(&mut md, "## ");
            push_str(&mut md, self.sections[i].title.as_str());
            push_str(&mut md, "\n\n");
            proof {
                assert(secs.take(i + 1).drop_last() =~= secs.take(i as int));
                assert(secs.take(i + 1).last() == self.sections[i as int]@);
            }
            i += 1;
        }
        assert(secs.take(self.sections.len() as int) =~= secs);
        md
    }

    /// Section instructions for the LLM (format and item format included).
    pub fn to_instructions(&self) -> (s: String)
        ensures
            s@ == instructions(self@.3),
    {
        let ghost secs = self@.3;
        let mut s = owned("- 为整个纪要生成简洁标题（# 一级标题）。\n");
        let mut i: usize = 0;
        while i < self.sections.len()
            invariant
                i <= self.sections.len(),
                secs == self@.3,
                s@ == instructions(secs.take(i as int)),
            decreases self.sections.len() - i,
        {
            let sec = &self.sections[i];
            let ghost before = s@;
            push_str(&mut s, "- 分节「");
            push_str(&mut s, sec.title.as_str());
            push_str(&mut s, "」（");
            push_str(&mut s, sec.format.as_str());
            push_str(&mut s, "）：");
            push_str(&mut s, sec.instruction.as_str());
            push_str(&mut s, "\n");
            match &sec.item_format {
                Some(f) => {
                    push_str(&mut s, "  - 条目格式：`");
                    push_str(&mut s, f.as_str());
                    push_str(&mut s, "`\n");
                },
                None => {},
            }
            proof {
                assert(secs.take(i + 1).drop_last() =~= secs.take(i as int));
                assert(secs.take(i + 1).last() == sec@);
                assert(s@ =~= before + section_instruction(sec@));
            }
            i += 1;
        }
        assert(secs.take(self.sections.len() as int) =~= secs);
        s
    }
}

fn section(title: &str, instruction: &str, format: SectionFormat, item_format: Option<&str>) -> (s: TemplateSection)
    ensures
        s@ == (title@, instruction@, format, match item_format {
            Some(f) => Some(f@),
            None => None::<Seq<char>>,
        }),
{
    TemplateSection {
        title: owned(title),
        instruction: owned(instruction),
        format,
        item_format: match item_format {
            Some(f) => Some(owned(f)),
            None => None,
        },
    }
}

pub open spec fn sec(t: &str, i: &str, f: SectionFormat, item: Option<&str>) -> SectionView {
    (t@, i@, f, match item {
        Some(x) => Some(x@),
        None => None,
    })
}

/// The built-in templates, in catalogue order.
pub open spec fn builtin_spec() -> Seq<TemplateView> {
    seq![
        (
            "standard_meeting"@,
            "标准会议纪要"@,
            "常规会议：摘要、关键决策、行动项、讨论亮点"@,
            seq![
                sec("摘要", "用一段话总结整场会议。", SectionFormat::Paragraph, None),
                sec("关键决策", "列出会议中达成的重要决定。", SectionFormat::List, None),
                sec("行动项", "列出负责人与任务；附相关转写引用。", SectionFormat::List, Some("| 负责人 | 任务 | 截止 | 转写引用 |")),
                sec("讨论亮点", "总结主要议题、论点与关键信息。", SectionFormat::Paragraph, None),
            ],
        ),
        (
            "negotiation"@,
            "商务谈判记录"@,
            "谈判：我方立场、对方诉求、让步点、未决事项"@,
            seq![
                sec("会谈摘要", "一段话概述谈判进程与结果。", SectionFormat::Paragraph, None),
                sec("对方诉求", "列出客户/对方的明确诉求与底线信号。", SectionFormat::List, None),
                sec("我方让步与承诺", "记录我方给出的让步、承诺与条件。", SectionFormat::List, None),
                sec("未决事项", "列出待跟进/待确认事项与时间点。", SectionFormat::List, Some("| 事项 | 责任人 | 时间点 |")),
            ],
        ),
        (
            "tech_review"@,
            "技术评审纪要"@,
            "技术方案讨论：需求、方案、风险、结论"@,
            seq![
                sec("评审摘要", "一段话概述技术讨论与结论。", SectionFormat::Paragraph, None),
                sec("需求与约束", "列出客户需求与技术约束。", SectionFormat::List, None),
                sec("方案与权衡", "总结讨论过的方案与取舍理由。", SectionFormat::Paragraph, None),
                sec("风险与开放问题", "列出风险点与待解决技术问题。", SectionFormat::List, None),
            ],
        ),
        (
            "daily_standup"@,
            "每日站会"@,
            "站会：昨日、今日、阻塞"@,
            seq![
                sec("昨日完成", "列出昨日完成事项。", SectionFormat::List, None),
                sec("今日计划", "列出今日计划事项。", SectionFormat::List, None),
                sec("阻塞与协助", "列出阻塞项与需要的协助。", SectionFormat::List, None),
            ],
        ),
    ]
}

pub open spec fn templates_view(v: Seq<Template>) -> Seq<TemplateView> {
    v.map_values(|t: Template| t@)
}

fn template(id: &str, name: &str, description: &str, sections: Vec<TemplateSection>) -> (t: Template)
    ensures
        t@ == (id@, name@, description@, sections@.map_values(|s: TemplateSection| s@)),
{
    Template { id: owned(id), name: owned(name), description: owned(description), sections }
}

fn standard_meeting() -> (t: Template)
    ensures
        t@ == builtin_spec()[0],
{
    let secs = vec![
        section("摘要", "用一段话总结整场会议。", SectionFormat::Paragraph, None),
        section("关键决策", "列出会议中达成的重要决定。", SectionFormat::List, None),
        section("行动项", "列出负责人与任务；附相关转写引用。", SectionFormat::List, Some("| 负责人 | 任务 | 截止 | 转写引用 |")),
        section("讨论亮点", "总结主要议题、论点与关键信息。", SectionFormat::Paragraph, None),
    ];
    let t = template("standard_meeting", "标准会议纪要", "常规会议：摘要、关键决策、行动项、讨论亮点", secs);
    assert(t@.3 =~= builtin_spec()[0].3);
    t
}

fn negotiation() -> (t: Template)
    ensures
        t@ == builtin_spec()[1],
{
    let secs = vec![
        section("会谈摘要", "一段话概述谈判进程与结果。", SectionFormat::Paragraph, None),
        section("对方诉求", "列出客户/对方的明确诉求与底线信号。", SectionFormat::List, None),
        section("我方让步与承诺", "记录我方给出的让步、承诺与条件。", SectionFormat::List, None),
        section("未决事项", "列出待跟进/待确认事项与时间点。", SectionFormat::List, Some("| 事项 | 责任人 | 时间点 |")),
    ];
    let t = template("negotiation", "商务谈判记录", "谈判：我方立场、对方诉求、让步点、未决事项", secs);
    assert(t@.3 =~= builtin_spec()[1].3);
    t
}

fn tech_review() -> (t: Template)
    ensures
        t@ == builtin_spec()[2],
{
    let secs = vec![
        section("评审摘要", "一段话概述技术讨论与结论。", SectionFormat::Paragraph, None),
        section("需求与约束", "列出客户需求与技术约束。", SectionFormat::List, None),
        section("方案与权衡", "总结讨论过的方案与取舍理由。", SectionFormat::Paragraph, None),
        section("风险与开放问题", "列出风险点与待解决技术问题。", SectionFormat::List, None),
    ];
    let t = template("tech_review", "技术评审纪要", "技术方案讨论：需求、方案、风险、结论", secs);
    assert(t@.3 =~= builtin_spec()[2].3);
    t
}

fn daily_standup() -> (t: Template)
    ensures
        t@ == builtin_spec()[3],
{
    let secs = vec![
        section("昨日完成", "列出昨日完成事项。", SectionFormat::List, None),
        section("今日计划", "列出今日计划事项。", SectionFormat::List, None),
        section("阻塞与协助", "列出阻塞项与需要的协助。", SectionFormat::List, None),
    ];
    let t = template("daily_standup", "每日站会", "站会：昨日、今日、阻塞", secs);
    assert(t@.3 =~= builtin_spec()[3].3);
    t
}

/// The built-in templates.
pub fn builtin_templates() -> (v: Vec<Template>)
    ensures
        templates_view(v@) == builtin_spec(),
{
    let v = vec![standard_meeting(), negotiation(), tech_review(), daily_standup()];
    assert(templates_view(v@) =~= builtin_spec());
    v
}

/// The first built-in template with the given id.
pub open spec fn template_by_id(id: Seq<char>) -> Option<TemplateView> {
    if exists|k: int| 0 <= k < builtin_spec().len() && (#[trigger] builtin_spec()[k]).0 == id {
        let k = choose|k: int|
            0 <= k < builtin_spec().len() && builtin_spec()[k].0 == id && forall|q: int|
                0 <= q < k ==> (#[trigger] builtin_spec()[q]).0 != id;
        Some(builtin_spec()[k])
    } else {
        None
    }
}

/// Looks a built-in template up by id.
pub fn get_template(id: &str) -> (r: Option<Template>)
    ensures
        match r {
            Some(t) => template_by_id(id@) == Some(t@),
            None => template_by_id(id@) is None,
        },
{
    let mut all = builtin_templates();
    let ghost specs = builtin_spec();
    let mut k: usize = 0;
    while k < all.len()
        invariant
            k <= all.len(),
            all.len() == specs.len(),
            specs == builtin_spec(),
            templates_view(all@) == specs,
            forall|q: int| 0 <= q < k ==> (#[trigger] specs[q]).0 != id@,
        decreases all.len() - k,
    {
        assert(all@[k as int]@ == specs[k as int]);
        if crate::text::str_eq(all[k].id.as_str(), id) {
            proof {
                let w = choose|w: int|
                    0 <= w < specs.len() && specs[w].0 == id@ && forall|q: int|
                        0 <= q < w ==> (#[trigger] specs[q]).0 != id@;
                assert(w == k) by {
                    if w < k {
                    } else if w > k {
                        assert(specs[k as int].0 == id@);
                    }
                }
            }
            let mut rest = all.split_off(k);
            let t = rest.swap_remove(0);
            return Some(t);
        }
        k += 1;
    }
    None
}

// ---------------------------------------------------------------- generation

/// One final transcript line as the notes generator reads it.
#[derive(Debug)]
pub struct TranscriptLine {
    pub speaker_label: String,
    pub text: String,
}

pub open spec fn line_text(l: (Seq<char>, Seq<char>)) -> Seq<char> {
    "["@ + l.0 + "] "@ + l.1
}

/// `[label] text` lines joined by newlines.
pub open spec fn transcript_block(lines: Seq<(Seq<char>, Seq<char>)>) -> Seq<char>
    decreases lines.len(),
{
    if lines.len() == 0 {
        Seq::empty()
    } else if lines.len() == 1 {
        line_text(lines[0])
    } else {
        transcript_block(lines.drop_last()) + "\n"@ + line_text(lines.last())
    }
}

/// Texts joined by a separator.
pub open spec fn join(items: Seq<Seq<char>>, sep: Seq<char>) -> Seq<char>
    decreases items.len(),
{
    if items.len() == 0 {
        Seq::empty()
    } else if items.len() == 1 {
        items[0]
    } else {
        join(items.drop_last(), sep) + sep + items.last()
    }
}

pub open spec fn lines_view(v: Seq<TranscriptLine>) -> Seq<(Seq<char>, Seq<char>)> {
    v.map_values(|l: TranscriptLine| (l.speaker_label@, l.text@))
}

pub open spec fn strings_view(v: Seq<String>) -> Seq<Seq<char>> {
    v.map_values(|s: String| s@)
}

/// The user prompt sent for a set of notes.
pub open spec fn notes_prompt(
    t: TemplateView,
    lines: Seq<(Seq<char>, Seq<char>)>,
    terms: Seq<Seq<char>>,
    translations: Seq<Seq<char>>,
) -> Seq<char> {
    "## 模板\n"@ + markdown_structure(t.3) + "\n\n## 模板分节指令\n"@ + instructions(t.3)
        + "\n\n## 转写\n"@ + transcript_block(lines) + "\n\n## 术语\n"@ + (if terms.len() == 0 {
        "（无）"@
    } else {
        join(terms, "；"@)
    }) + "\n\n## 翻译参考\n"@ + (if translations.len() == 0 {
        "（无）"@
    } else {
        join(translations, "\n"@)
    }) + "\n\n请生成纪要。"@
}

fn push_transcript(out: &mut String, lines: &[TranscriptLine])
    ensures
        final(out)@ == old(out)@ + transcript_block(lines_view(lines@)),
{
    let ghost lv = lines_view(lines@);
    let mut i: usize = 0;
    while i < lines.len()
        invariant
            i <= lines.len(),
            lv == lines_view(lines@),
            out@ == old(out)@ + transcript_block(lv.take(i as int)),
        decreases lines.len() - i,
    {
        let ghost before = out@;
        if i > 0 {
            push_str(out, "\n");
        }
        push_str(out, "[");
        push_str(out, lines[i].speaker_label.as_str());
        push_str(out, "] ");
        push_str(out, lines[i].text.as_str());
        proof {
            assert(lv.take(i + 1).drop_last() =~= lv.take(i as int));
            assert(lv.take(i + 1).last() == lv[i as int]);
            if i == 0 {
                assert(lv.take(1)[0] == lv[0]);
            }
            assert(out@ =~= old(out)@ + transcript_block(lv.take(i + 1)));
        }
        i += 1;
    }
    assert(lv.take(lines.len() as int) =~= lv);
}

fn push_joined(out: &mut String, items: &[String], sep: &str)
    ensures
        final(out)@ == old(out)@ + join(strings_view(items@), sep@),
{
    let ghost iv = strings_view(items@);
    let mut i: usize = 0;
    while i < items.len()
        invariant
            i <= items.len(),
            iv == strings_view(items@),
            out@ == old(out)@ + join(iv.take(i as int), sep@),
        decreases items.len() - i,
    {
        if i > 0 {
            push_str(out, sep);
        }
        push_str(out, items[i].as_str());
        proof {
            assert(iv.take(i + 1).drop_last() =~= iv.take(i as int));
            if i == 0 {
                assert(iv.take(1)[0] == iv[0]);
            }
            assert(out@ =~= old(out)@ + join(iv.take(i + 1), sep@));
        }
        i += 1;
    }
    assert(iv.take(items.len() as int) =~= iv);
}

pub open spec fn answer_view(r: Result<String, String>) -> Result<Seq<char>, Seq<char>> {
    match r {
        Ok(s) => Ok(s@),
        Err(e) => Err(e@),
    }
}

/// The notes a provider's answer makes: the trimmed text, an error when it
/// is blank; a provider error passes through.
pub open spec fn notes_outcome(answer: Result<Seq<char>, Seq<char>>) -> Result<Seq<char>, Seq<char>> {
    match answer {
        Err(e) => Err(e),
        Ok(a) => if trim(a).len() == 0 {
            Err("纪要生成结果为空"@)
        } else {
            Ok(trim(a))
        },
    }
}

/// Turns the provider's answer into notes (see [`notes_outcome`]).
pub fn notes_from_answer(answer: Result<String, String>) -> (r: Result<String, String>)
    ensures
        answer_view(r) == notes_outcome(answer_view(answer)),
{
    match answer {
        Err(e) => Err(e),
        Ok(notes) => {
            let trimmed = trimmed_string(notes.as_str());
            if trimmed.as_str().is_empty() {
                Err(owned("纪要生成结果为空"))
            } else {
                Ok(trimmed)
            }
        },
    }
}

/// Notes generator over an LLM provider.
pub struct NotesGenerator<P: LLMProvider> {
    llm: P,
}

impl<P: LLMProvider> NotesGenerator<P> {
    /// The provider the generator asks.
    pub closed spec fn provider(&self) -> P {
        self.llm
    }

    /// A generator that asks `llm`.
    pub fn new(llm: P) -> (g: Self)
        ensures
            g.provider() == llm,
    {
        NotesGenerator { llm }
    }

    /// The user prompt for `template` over the transcript, terms and translations.
    pub fn prompt(
        transcript: &[TranscriptLine],
        terms: &[String],
        translations: &[String],
        template: &Template,
    ) -> (p: String)
        ensures
            p@ == notes_prompt(template@, lines_view(transcript@), strings_view(terms@), strings_view(translations@)),
    {
        let mut p = owned("## 模板\n");
        let md = template.to_markdown_structure();
        push_str(&mut p, md.as_str());
        push_str(&mut p, "\n\n## 模板分节指令\n");
        let ins = template.to_instructions();
        push_str(&mut p, ins.as_str());
        push_str(&mut p, "\n\n## 转写\n");
        push_transcript(&mut p, transcript);
        push_str(&mut p, "\n\n## 术语\n");
        if terms.len() == 0 {
            push_str(&mut p, "（无）");
        } else {
            push_joined(&mut p, terms, "；");
        }
        push_str(&mut p, "\n\n## 翻译参考\n");
        if translations.len() == 0 {
            push_str(&mut p, "（无）");
        } else {
            push_joined(&mut p, translations, "\n");
        }
        push_str(&mut p, "\n\n请生成纪要。");
        proof {
            assert(p@ =~= notes_prompt(template@, lines_view(transcript@), strings_view(terms@), strings_view(translations@)));
        }
        p
    }

    /// Markdown notes for the session, following the template's sections.
    /// The template must validate and the transcript must not be empty; the
    /// provider is then asked once, with [`Self::prompt`] and the secretary
    /// system prompt, and its answer becomes the notes by
    /// [`notes_from_answer`]. What the provider answers is its own affair.
    pub fn generate(
        &self,
        transcript: &[TranscriptLine],
        terms: &[String],
        translations: &[String],
        template: &Template,
    ) -> (r: Result<String, String>)
        ensures
            validate_spec(template@) is Err ==> r is Err && r->Err_0@ == validate_spec(template@)->Err_0,
            validate_spec(template@) is Ok && transcript.len() == 0 ==> r is Err && r->Err_0@ == "会话无转写内容，无法生成纪要"@,
            validate_spec(template@) is Ok && transcript.len() > 0 ==> exists|a: Result<Seq<char>, Seq<char>>|
                answer_view(r) == notes_outcome(a),
            r matches Ok(notes) ==> notes@.len() > 0 && notes@ == trim(notes@),
    {
        match template.validate() {
            Err(e) => {
                return Err(e);
            },
            Ok(()) => {},
        }
        if transcript.len() == 0 {
            return Err(owned("会话无转写内容，无法生成纪要"));
        }
        let system = owned(
            "你是中英双语商务会议秘书。根据转写与辅助信息，按给定模板结构生成简洁、条理的 Markdown 会议纪要。使用中文输出（除非内容是专有名词/缩写）。遵守模板分节与条目格式。",
        );
        let prompt = Self::prompt(transcript, terms, translations, template);
        let answer = self.llm.complete(prompt.as_str(), system.as_str());
        let ghost a = answer_view(answer);
        let r = notes_from_answer(answer);
        proof {
            if let Ok(t) = a {
                crate::text::lemma_trim_idempotent(t);
            }
        }
        r
    }
}

// ---------------------------------------------------------------- three-part summary

/// One topic of the key points, each point attributed to its speaker.
#[derive(Debug, Clone)]
pub struct KeyPoint {
    pub topic: String,
    pub points: Vec<String>,
}

/// The three-part summary: overview, key points by topic, action items.
#[derive(Debug, Clone)]
pub struct TrioSummary {
    /// One narrative paragraph (three to five sentences).
    pub short_overview: String,
    pub key_points: Vec<KeyPoint>,
    /// Action items (owner / deadline where mentioned).
    pub action_items: Vec<String>,
}

pub const OVERVIEW_SYSTEM: &'static str = "你是一名资深会议纪要秘书。根据转写与会议信息，写一段话的叙事概述。规则：单段流畅叙述，不用列表/标题/编号；3–5 句、不超过 120 字；第三人称过去时；提到参会者与其贡献但保持概括，不逐字引用、不添加评价；只输出概述段落本身。";

pub const KEY_POINTS_SYSTEM: &'static str = "你是一名资深会议纪要秘书。根据转写提取关键讨论要点，按主题分组。规则：识别 2–5 个主要主题；每条要点归属提出人（格式：「[我]/[客户] 说了/确认了/提出了…」）；每条一句话、具体不空泛；只陈述事实，不加解读；按实际内容定数量，不强行填充。只输出如下 JSON，不要任何其他内容：{\"key_points\":[{\"topic\":\"主题\",\"points\":[\"说话人说了什么具体内容。\"]}]}";

pub const ACTION_ITEMS_SYSTEM: &'static str = "你是一名资深会议分析师。从转写中提取所有会议后需要处理的事项。规则：包括分配给某人的任务、待跟进决定、未解答问题、承诺、提到的期限、下一步；每条要具体可执行，含负责人（若提到）；如「客户发邮件确认方案」「周五前发 proposal」；3–10 条，只收录真实行动项，不编造；无行动项则返回空数组。只输出如下 JSON，不要任何其他内容：{\"checklist\":[\"行动项1\",\"行动项2\"]}";

/// The meeting context lines: name and description when given and not blank.
pub open spec fn trio_context(name: Option<Seq<char>>, desc: Option<Seq<char>>) -> Seq<char> {
    (match name {
        Some(n) => if !is_blank(n) {
            "会议名称："@ + n + "\n"@
        } else {
            Seq::empty()
        },
        None => Seq::empty(),
    }) + (match desc {
        Some(d) => if !is_blank(d) {
            "会议说明："@ + d + "\n"@
        } else {
            Seq::empty()
        },
        None => Seq::empty(),
    })
}

/// The user prompt shared by the three summary requests.
pub open spec fn trio_prompt_spec(lines: Seq<(Seq<char>, Seq<char>)>, name: Option<Seq<char>>, desc: Option<Seq<char>>) -> Seq<char> {
    trio_context(name, desc) + "\n## 转写\n"@ + transcript_block(lines) + "\n\n请生成。"@
}

pub open spec fn opt_view(o: Option<&str>) -> Option<Seq<char>> {
    match o {
        Some(s) => Some(s@),
        None => None,
    }
}

/// The user prompt of the three-part summary.
pub fn trio_user_prompt(transcript: &[TranscriptLine], meeting_name: Option<&str>, meeting_description: Option<&str>) -> (p: String)
    ensures
        p@ == trio_prompt_spec(lines_view(transcript@), opt_view(meeting_name), opt_view(meeting_description)),
{
    let mut p = String::new();
    match meeting_name {
        Some(n) => {
            if !is_blank_str(n) {
                push_str(&mut p, "会议名称：");
                push_str(&mut p, n);
                push_str(&mut p, "\n");
            }
        },
        None => {},
    }
    match meeting_description {
        Some(d) => {
            if !is_blank_str(d) {
                push_str(&mut p, "会议说明：");
                push_str(&mut p, d);
                push_str(&mut p, "\n");
            }
        },
        None => {},
    }
    assert(p@ =~= trio_context(opt_view(meeting_name), opt_view(meeting_description)));
    push_str(&mut p, "\n## 转写\n");
    push_transcript(&mut p, transcript);
    push_str(&mut p, "\n\n请生成。");
    assert(p@ =~= trio_prompt_spec(lines_view(transcript@), opt_view(meeting_name), opt_view(meeting_description)));
    p
}

/// The JSON object in a model answer: from the first `{` to the last `}` of
/// the trimmed text (fences and surrounding prose are dropped), if any.
pub open spec fn json_span_spec(text: Seq<char>) -> Option<Seq<char>> {
    let t = trim(text);
    if (exists|i: int| 0 <= i < t.len() && t[i] == '{') && (exists|j: int| 0 <= j < t.len() && t[j] == '}') {
        let start = choose|i: int| 0 <= i < t.len() && t[i] == '{' && forall|k: int| 0 <= k < i ==> t[k] != '{';
        let end = choose|j: int| 0 <= j < t.len() && t[j] == '}' && forall|k: int| j < k < t.len() ==> t[k] != '}';
        if end < start {
            None
        } else {
            Some(t.subrange(start, end + 1))
        }
    } else {
        None
    }
}

/// Frames the JSON object of a model answer (see [`json_span_spec`]).
pub fn extract_json_span(text: &str) -> (r: Option<String>)
    ensures
        match r {
            Some(s) => json_span_spec(text@) == Some(s@),
            None => json_span_spec(text@) is None,
        },
{
    let t = trimmed_chars(text);
    let ghost tv = t@;
    let mut i: usize = 0;
    while i < t.len() && t[i] != '{'
        invariant
            i <= t.len(),
            forall|k: int| 0 <= k < i ==> t@[k] != '{',
        decreases t.len() - i,
    {
        i += 1;
    }
    if i == t.len() {
        return None;
    }
    let mut j: usize = t.len();
    while j > 0 && t[j - 1] != '}'
        invariant
            j <= t.len(),
            forall|k: int| j <= k < t.len() ==> t@[k] != '}',
        decreases j,
    {
        j -= 1;
    }
    if j == 0 {
        return None;
    }
    let end = j - 1;
    proof {
        let start_c = choose|x: int| 0 <= x < tv.len() && tv[x] == '{' && forall|k: int| 0 <= k < x ==> tv[k] != '{';
        assert(start_c == i) by {
            if start_c < i {
            } else if start_c > i {
                assert(tv[i as int] == '{');
            }
        }
        let end_c = choose|x: int| 0 <= x < tv.len() && tv[x] == '}' && forall|k: int| x < k < tv.len() ==> tv[k] != '}';
        assert(end_c == end) by {
            if end_c < end {
                assert(tv[end as int] == '}');
            } else if end_c > end {
            }
        }
    }
    if end < i {
        return None;
    }
    Some(string_of_range(t.as_slice(), i, end + 1))
}

/// What the three requests answered, framed: the overview (trimmed), and
/// each JSON answer with the object it holds, if any. Turning those objects
/// into values happens outside the library.
#[derive(Debug, Clone)]
pub struct TrioDraft {
    pub short_overview: String,
    pub key_points_raw: String,
    pub key_points_json: Option<String>,
    pub action_raw: String,
    pub action_json: Option<String>,
}

pub open spec fn opt_string_view(o: Option<String>) -> Option<Seq<char>> {
    match o {
        Some(s) => Some(s@),
        None => None,
    }
}

/// Frames the three answers.
pub fn draft_from_answers(overview: &str, key_points: &str, actions: &str) -> (d: TrioDraft)
    ensures
        d.short_overview@ == trim(overview@),
        d.key_points_raw@ == key_points@,
        opt_string_view(d.key_points_json) == json_span_spec(key_points@),
        d.action_raw@ == actions@,
        opt_string_view(d.action_json) == json_span_spec(actions@),
{
    TrioDraft {
        short_overview: trimmed_string(overview),
        key_points_raw: owned(key_points),
        key_points_json: extract_json_span(key_points),
        action_raw: owned(actions),
        action_json: extract_json_span(actions),
    }
}

/// Three-part summary generator: overview, key points and action items are
/// asked for separately with the same user prompt.
pub struct TrioGenerator<P: LLMProvider> {
    llm: P,
}

impl<P: LLMProvider> TrioGenerator<P> {
    /// The provider the generator asks.
    pub closed spec fn provider(&self) -> P {
        self.llm
    }

    /// A generator that asks `llm`.
    pub fn new(llm: P) -> (g: Self)
        ensures
            g.provider() == llm,
    {
        TrioGenerator { llm }
    }

    /// Asks for the three parts and frames the answers. An empty transcript
    /// is refused before any request; a provider error is passed on.
    pub fn generate(
        &self,
        transcript: &[TranscriptLine],
        meeting_name: Option<&str>,
        meeting_description: Option<&str>,
    ) -> (r: Result<TrioDraft, String>)
        ensures
            transcript.len() == 0 ==> r is Err && r->Err_0@ == "会话无转写内容，无法生成纪要"@,
            r matches Ok(d) ==> d.short_overview@ == trim(d.short_overview@),
            r matches Ok(d) ==> opt_string_view(d.key_points_json) == json_span_spec(d.key_points_raw@),
            r matches Ok(d) ==> opt_string_view(d.action_json) == json_span_spec(d.action_raw@),
    {
        if transcript.len() == 0 {
            return Err(owned("会话无转写内容，无法生成纪要"));
        }
        let prompt = trio_user_prompt(transcript, meeting_name, meeting_description);
        let overview = self.llm.complete(prompt.as_str(), OVERVIEW_SYSTEM)?;
        let key_points = self.llm.complete(prompt.as_str(), KEY_POINTS_SYSTEM)?;
        let actions = self.llm.complete(prompt.as_str(), ACTION_ITEMS_SYSTEM)?;
        let d = draft_from_answers(overview.as_str(), key_points.as_str(), actions.as_str());
        proof {
            crate::text::lemma_trim_idempotent(overview@);
        }
        Ok(d)
    }
}

} // verus!
