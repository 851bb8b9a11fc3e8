//! The HTML reply for a query result, and the fixed replies.

use vstd::prelude::*;
use crate::api::{AnalysisResult, Insight, QueryResponse, Severity};
use crate::text::{
    chars_of, decimal, join_nl, lines_of, push_decimal, push_joined, push_text, split_lines,
};

verus! {

pub const HELP_TEXT: &'static str = "📖 <b>Справка по использованию бота</b>

🤖 <b>Основные команды:</b>
/start - Начать работу с ботом
/help - Показать эту справку
/clear - Очистить контекст запросов
/status - Проверить статус бэкенда
/menu - Показать главное меню

💡 <b>Как использовать:</b>
Просто задавайте вопросы на естественном языке, и бот автоматически сгенерирует SQL-запросы и предоставит аналитику!

🔍 <b>ОБЯЗАТЕЛЬНО: Для SQL запросов к базе данных используйте префикс:</b>
• <b>sql:</b> - например: <code>sql: Показать транзакции за сегодня</code>

⚠️ <b>Без префикса</b> бот может неправильно определить тип запроса и ответить как в обычном чате, а не выполнить SQL запрос к базе данных.

📊 <b>Примеры вопросов (с префиксом sql:):</b>
• <code>sql:</code> Сколько транзакций было сегодня?
• <code>sql:</code> Топ 10 городов по объему транзакций
• <code>sql:</code> Средний чек для карт Halyk Bank
• <code>sql:</code> Объем транзакций по категориям за месяц
• <code>sql:</code> Распределение транзакций по валютам

📋 <b>Указание формата вывода:</b>
Вы можете явно указать желаемый формат вывода в запросе:
• <b>Таблица:</b> добавьте слова \"таблица\", \"table\", \"таблицу\" в запрос
  Пример: \"Покажи топ категорий таблица\"
• <b>Диаграмма:</b> добавьте слова \"диаграмма\", \"chart\", \"график\", \"визуализация\" в запрос
  Пример: \"Распределение по валютам диаграмма\"
• <b>Автоматически:</b> если не указано, бот сам выберет подходящий формат

✨ <b>Особенности:</b>
• Автоматическая генерация SQL из вопросов
• Детальная аналитика с инсайтами
• Экспорт данных в CSV
• Генерация диаграмм
• Поддержка русского, английского и казахского языков
• Контекстная память ваших запросов

Используйте конкретные вопросы для лучших результатов. Бот понимает естественный язык и автоматически оптимизирует запросы к базе данных.";

/// What one character becomes in HTML text.
pub open spec fn escape_char(c: char) -> Seq<char> {
    if c == '&' {
        "&amp;"@
    } else if c == '<' {
        "&lt;"@
    } else if c == '>' {
        "&gt;"@
    } else {
        seq![c]
    }
}

/// `s` with `&`, `<` and `>` written as entities, and nothing else changed.
pub open spec fn escape(s: Seq<char>) -> Seq<char>
    decreases s.len(),
{
    if s.len() == 0 {
        seq![]
    } else {
        escape(s.drop_last()) + escape_char(s.last())
    }
}

fn push_escaped(out: &mut String, text: &str)
    ensures
        final(out)@ == old(out)@ + escape(text@),
{
    let cs = chars_of(text);
    let mut i: usize = 0;
    while i < cs.len()
        invariant
            i <= cs.len(),
            cs@ == text@,
            out@ == old(out)@ + escape(cs@.take(i as int)),
        decreases cs.len() - i,
    {
        let c = cs[i];
        assert(cs@.take(i + 1).drop_last() == cs@.take(i as int));
        if c == '&' {
            push_text(out, "&amp;");
        } else if c == '<' {
            push_text(out, "&lt;");
        } else if c == '>' {
            push_text(out, "&gt;");
        } else {
            out.push(c);
        }
        i = i + 1;
    }
    assert(cs@.take(cs.len() as int) == cs@);
}

/// The text with `&`, `<` and `>` escaped for an HTML message.
pub fn escape_html(text: &str) -> (r: String)
    ensures
        r@ == escape(text@),
{
    let mut r = String::new();
    push_escaped(&mut r, text);
    r
}

pub open spec fn error_text(error: Seq<char>) -> Seq<char> {
    "❌ <b>Ошибка:</b>\n"@ + escape(error)
}

/// An error notice around the escaped message.
pub fn format_error(error: &str) -> (r: String)
    ensures
        r@ == error_text(error@),
{
    let mut r = String::from_str("❌ <b>Ошибка:</b>\n");
    push_escaped(&mut r, error);
    r
}

pub open spec fn severity_mark(s: Severity) -> Seq<char> {
    match s {
        Severity::High => "🔴"@,
        Severity::Medium => "🟡"@,
        Severity::Low => "🟢"@,
    }
}

pub open spec fn insight_text(i: Insight) -> Seq<char> {
    severity_mark(i.significance) + " <b>"@ + escape(i.title@) + "</b>\n"@ + escape(
        i.description@,
    ) + "\n\n"@
}

pub open spec fn insights_text(s: Seq<Insight>) -> Seq<char>
    decreases s.len(),
{
    if s.len() == 0 {
        seq![]
    } else {
        insights_text(s.drop_last()) + insight_text(s.last())
    }
}

/// The suggestions as a list numbered from one.
pub open spec fn numbered(qs: Seq<String>) -> Seq<char>
    decreases qs.len(),
{
    if qs.len() == 0 {
        seq![]
    } else {
        numbered(qs.drop_last()) + decimal(qs.len()) + ". "@ + escape(qs.last()@) + "\n"@
    }
}

pub open spec fn headline_part(a: AnalysisResult) -> Seq<char> {
    "📊 <b>"@ + escape(a.headline@) + "</b>\n\n"@
}

pub open spec fn insights_part(a: AnalysisResult) -> Seq<char> {
    if a.insights@.len() > 0 {
        "💡 <b>Основные выводы:</b>\n"@ + insights_text(a.insights@)
    } else {
        seq![]
    }
}

pub open spec fn explanation_part(a: AnalysisResult) -> Seq<char> {
    "📝 <b>Объяснение:</b>\n"@ + escape(a.explanation@) + "\n\n"@
}

pub open spec fn suggestions_part(a: AnalysisResult) -> Seq<char> {
    if a.suggested_questions@.len() > 0 {
        "💭 <b>Рекомендуемые вопросы:</b>\n"@
            + "<i>Нажмите на кнопку ниже, чтобы выполнить запрос</i>\n\n"@ + numbered(
            a.suggested_questions@,
        ) + "\n"@
    } else {
        seq![]
    }
}

/// The headline, the insights, the explanation and the numbered suggestions.
pub open spec fn analysis_text(a: AnalysisResult) -> Seq<char> {
    headline_part(a) + insights_part(a) + explanation_part(a) + suggestions_part(a)
}

/// Most lines of a long table that the reply shows.
pub open spec fn shown_lines(t: Seq<char>) -> Seq<char> {
    let ls = lines_of(t);
    join_nl(ls.take(if ls.len() < 10 { ls.len() as int } else { 10 }))
}

pub open spec fn data_text(r: QueryResponse) -> Seq<char> {
    match r.table {
        Some(t) => if t@.len() > 0 {
            "📋 <b>Результаты ("@ + decimal(r.row_count as nat) + ")</b>:\n\n"@ + (
            if r.row_count <= 10 {
                t@
            } else {
                shown_lines(t@) + "\n... и еще "@ + decimal((r.row_count - 5) as nat)
                    + " строк(и)\n"@
            }) + "\n"@
        } else {
            seq![]
        },
        None => if r.data@.len() > 0 && r.row_count > 1 {
            "📊 <b>Найдено результатов:</b> "@ + decimal(r.row_count as nat) + "\n\n"@
        } else if r.data@.len() == 0 {
            "📭 Нет данных для отображения\n"@
        } else {
            seq![]
        },
    }
}

pub open spec fn timing_text(r: QueryResponse) -> Seq<char> {
    "\n⏱ <b>Время выполнения:</b> "@ + decimal(r.execution_time_ms as nat) + "ms"@ + (if r.cached {
        " (из кэша)"@
    } else {
        seq![]
    })
}

/// The reply for a query result: the narrative answer alone when there is
/// one, else the analysis, the data section and the timing line.
pub open spec fn report(r: QueryResponse) -> Seq<char> {
    match r.text_response {
        Some(t) => escape(t@),
        None => (match r.analysis {
            Some(a) => analysis_text(a),
            None => seq![],
        }) + data_text(r) + timing_text(r),
    }
}

fn push_insights(out: &mut String, s: &Vec<Insight>)
    ensures
        final(out)@ == old(out)@ + insights_text(s@),
{
    let mut i: usize = 0;
    while i < s.len()
        invariant
            i <= s.len(),
            out@ == old(out)@ + insights_text(s@.take(i as int)),
        decreases s.len() - i,
    {
        let ins = &s[i];
        assert(s@.take(i + 1).drop_last() == s@.take(i as int));
        match ins.significance {
            Severity::High => push_text(out, "🔴"),
            Severity::Medium => push_text(out, "🟡"),
            Severity::Low => push_text(out, "🟢"),
        }
        push_text(out, " <b>");
        push_escaped(out, &ins.title);
        push_text(out, "</b>\n");
        push_escaped(out, &ins.description);
        push_text(out, "\n\n");
        i = i + 1;
    }
    assert(s@.take(s.len() as int) == s@);
}

fn push_numbered(out: &mut String, qs: &Vec<String>)
    ensures
        final(out)@ == old(out)@ + numbered(qs@),
{
    let mut i: usize = 0;
    while i < qs.len()
        invariant
            i <= qs.len(),
            out@ == old(out)@ + numbered(qs@.take(i as int)),
        decreases qs.len() - i,
    {
        assert(qs@.take(i + 1).drop_last() == qs@.take(i as int));
        push_decimal(out, (i + 1) as u64);
        push_text(out, ". ");
        push_escaped(out, &qs[i]);
        push_text(out, "\n");
        i = i + 1;
    }
    assert(qs@.take(qs.len() as int) == qs@);
}

fn push_analysis(out: &mut String, a: &AnalysisResult)
    ensures
        final(out)@ == old(out)@ + analysis_text(*a),
{
    let ghost s0 = out@;
    push_text(out, "📊 <b>");
    push_escaped(out, &a.headline);
    push_text(out, "</b>\n\n");
    assert(out@ =~= s0 + headline_part(*a));
    let ghost s1 = out@;
    if a.insights.len() > 0 {
        push_text(out, "💡 <b>Основные выводы:</b>\n");
        push_insights(out, &a.insights);
    }
    assert(out@ =~= s1 + insights_part(*a));
    let ghost s2 = out@;
    push_text(out, "📝 <b>Объяснение:</b>\n");
    push_escaped(out, &a.explanation);
    push_text(out, "\n\n");
    assert(out@ =~= s2 + explanation_part(*a));
    let ghost s3 = out@;
    if a.suggested_questions.len() > 0 {
        push_text(out, "💭 <b>Рекомендуемые вопросы:</b>\n");
        push_text(out, "<i>Нажмите на кнопку ниже, чтобы выполнить запрос</i>\n\n");
        push_numbered(out, &a.suggested_questions);
        push_text(out, "\n");
    }
    assert(out@ =~= s3 + suggestions_part(*a));
    assert(out@ =~= s0 + analysis_text(*a));
}

fn push_data(out: &mut String, r: &QueryResponse)
    ensures
        final(out)@ == old(out)@ + data_text(*r),
{
    match &r.table {
        Some(t) => {
            if !t.as_str().is_empty() {
                push_text(out, "📋 <b>Результаты (");
                push_decimal(out, r.row_count as u64);
                push_text(out, ")</b>:\n\n");
                if r.row_count <= 10 {
                    push_text(out, t);
                } else {
                    let ls = split_lines(&chars_of(t));
                    let n = if ls.len() < 10 {
                        ls.len()
                    } else {
                        10
                    };
                    push_joined(out, &ls, n);
                    push_text(out, "\n... и еще ");
                    push_decimal(out, (r.row_count - 5) as u64);
                    push_text(out, " строк(и)\n");
                }
                push_text(out, "\n");
            }
        },
        None => {
            if r.data.len() > 0 && r.row_count > 1 {
                push_text(out, "📊 <b>Найдено результатов:</b> ");
                push_decimal(out, r.row_count as u64);
                push_text(out, "\n\n");
            } else if r.data.len() == 0 {
                push_text(out, "📭 Нет данных для отображения\n");
            }
        },
    }
}

/// The HTML reply for a query result. A narrative answer, when present, is
/// the whole reply.
pub fn format_query_response(response: &QueryResponse) -> (r: String)
    ensures
        r@ == report(*response),
        response.text_response is Some ==> r@ == escape(response.text_response->0@),
{
    let mut result = String::new();
    if let Some(text_response) = &response.text_response {
        push_escaped(&mut result, text_response);
        return result;
    }
    if let Some(analysis) = &response.analysis {
        push_analysis(&mut result, analysis);
    }
    push_data(&mut result, response);
    push_text(&mut result, "\n⏱ <b>Время выполнения:</b> ");
    push_decimal(&mut result, response.execution_time_ms);
    push_text(&mut result, "ms");
    if response.cached {
        push_text(&mut result, " (из кэша)");
    }
    result
}

pub open spec fn help_text() -> Seq<char> {
    HELP_TEXT@
}

/// The usage guide.
pub fn format_help() -> (r: String)
    ensures
        r@ == help_text(),
{
    String::from_str(HELP_TEXT)
}

} // verus!
