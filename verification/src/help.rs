//! The help texts of the command-line tool.
use vstd::prelude::*;

verus! {

pub const HELP_TEXT: &'static str = "Usage:
  pv doctor
  pv crop <election|year> <municipality> [options]
  pv ocr-votes <election|year> <municipality> [options]
  pv ocr-corrections <election|year> <municipality> [options]
  pv ocr-candidates <election|year> <municipality> [options]
  pv official-csvs <election|year> <municipality> [options]
  pv compare-results <election|year> <municipality> [options]

Commands:
  doctor          Check required external tools
  crop            Crop Utrecht-style table regions at native page resolution
  ocr-votes       Run narrow table 2.2 crops through a local multimodal LLM
  ocr-corrections Run correction table crops through a local multimodal LLM
  ocr-candidates  Run B1-3.5 candidate-column crops through a local multimodal LLM
  official-csvs   Fetch official GSB and CSB CSV tellingsbestanden
  compare-results Compare OCR Markdown results against the downloaded GSB CSV

Run `pv <command> --help` for command options.";

pub const DOCTOR_HELP_TEXT: &'static str = "Usage:
  pv doctor

Checks whether external tools required by the Rust utilities are available on
PATH. The current crop workflow requires Poppler's pdfimages and pdftotext;
B1-3.5 candidate-list crops also require mutool.";

pub const CROP_HELP_TEXT: &'static str = "Usage:
  pv crop <election|year> <municipality> [options]

Examples:
  cargo run -- crop 2026 0344 --station 40
  cargo run -- crop 2026 0344 --kind corrections --station 111
  cargo run -- crop 2026 0344 --kind b1-3.5 --station 100
  cargo run -- crop 2026-GR 0344

Options:
  --pdf <path-or-number>    Crop one PDF. Relative filenames are resolved inside the municipality directory.
                            A bare number is treated as a polling station number.
  --station <number>        Crop one polling station. Repeat to crop several stations.
                            Without this option, votes crops use all *_eerste_telling.pdf files and
                            corrections/candidate crops use station-level second-count PDFs.
  --out-dir <dir>           Output directory. Default: <election>/<municipality>/crops.
  --kind <kind>             Crop kind. Default: votes. Supported: votes / 2.2,
                            corrections / b1-2.4, candidates / b1-3.5.
  --page <number>           Override automatic section page detection.
  --keep-page-images        Keep extracted native page images under <out-dir>/_native_pages.
  --force                   Overwrite existing crop files.

The votes crop writes lossless PNG crops for table 2.2 \"Uitgebrachte stemmen\"
under <election>/<municipality>/crops/2.2/ and narrow OCR-focused crops under
<election>/<municipality>/crops/2.2/narrow/. The corrections crop writes table
B1-2.4 \"Lijsten met verschillen\" under
<election>/<municipality>/crops/corrections/. The candidate crop writes one
full B1-3.5 PNG per party list under
<election>/<municipality>/crops/b1-3.5/ and per-column narrow crops under
<election>/<municipality>/crops/b1-3.5/narrow/. The command uses pdftotext to
locate table pages. Votes and correction crops extract the embedded page image
with pdfimages and crop those native pixels directly; candidate-list crops use
mutool at 300 DPI, matching the scan dimensions while avoiding slow per-page
image extraction. Existing output files are treated as an error unless --force
is used.";

pub const OCR_VOTES_HELP_TEXT: &'static str = "Usage:
  pv ocr-votes <election|year> <municipality> [options]

Examples:
  cargo run -- ocr-votes 2026-GR 0344
  cargo run -- ocr-votes 2026 0344 --station 41 --force

Options:
  --input-dir <dir>         Narrow crop directory. Default: <election>/<municipality>/crops/2.2/narrow.
  --out-dir <dir>           Markdown output directory. Default: <election>/<municipality>/results.
  --prompt <path>           Prompt markdown file. Default: prompts/ocr-votes.md.
  --endpoint <url>          OpenAI-compatible local chat endpoint. Default: http://127.0.0.1:8089/v1/chat/completions.
                            Can also be set with PV_LLM_ENDPOINT.
  --model <model>           Model name sent to the endpoint. Default: local.
                            Can also be set with PV_LLM_MODEL.
  --image <stem-path-number>
                            Process only one narrow crop. Repeat to process several specific voting locations.
                            Stems are resolved under --input-dir with a .png suffix.
                            A bare number is treated as a polling station number.
  --station <number>        Process one polling station crop. Repeat to OCR several stations.
  --force                   Re-run the LLM and overwrite existing Markdown outputs.
  --max-new-stations <n>    Process at most N stations with missing or invalid Markdown outputs.
                            Existing valid stations are skipped when choosing the batch.
  --max-tokens <n>          Maximum completion tokens. Default: 4096.
  --timeout-seconds <n>     Socket read/write timeout for each LLM request. Default: 300.

The ocr-votes command is meant to run after `pv crop`. It sends each narrow
PNG crop to a local multimodal LLM in a fresh chat-completion request, writes
one Markdown table per voting location, then validates the Markdown structure
and arithmetic. Existing Markdown files are validated without rerunning the LLM
unless --force is used. The final report lists PASS/FAIL per voting location.";

pub const OCR_CORRECTIONS_HELP_TEXT: &'static str = "Usage:
  pv ocr-corrections <election|year> <municipality> [options]

Examples:
  cargo run -- ocr-corrections 2026-GR 0344
  cargo run -- ocr-corrections 2026 0344 --station 126 --force

Options:
  --input-dir <dir>         Correction crop directory. Default: <election>/<municipality>/crops/corrections.
  --out-dir <dir>           Markdown output directory. Default: <election>/<municipality>/results/corrections.
  --prompt <path>           Prompt markdown file. Default: prompts/ocr-corrections.md.
  --endpoint <url>          OpenAI-compatible local chat endpoint. Default: http://127.0.0.1:8089/v1/chat/completions.
                            Can also be set with PV_LLM_ENDPOINT.
  --model <model>           Model name sent to the endpoint. Default: local.
                            Can also be set with PV_LLM_MODEL.
  --image <stem-path-number>
                            Process only one correction crop. Repeat to process several specific stations.
                            A bare number is treated as a polling station number.
  --station <number>        Process one polling station correction crop. Repeat to OCR several stations.
  --force                   Re-run the LLM and overwrite existing Markdown outputs.
  --max-new-stations <n>    Process at most N stations with missing or invalid Markdown outputs.
                            Existing valid stations are skipped when choosing the batch.
  --max-tokens <n>          Maximum completion tokens. Default: 4096.
  --timeout-seconds <n>     Socket read/write timeout for each LLM request. Default: 300.

The ocr-corrections command is meant to run after
`pv crop --kind corrections`. It writes one Markdown table per station with the
first count, second count, and signed difference for every correction row.";

pub const OCR_CANDIDATES_HELP_TEXT: &'static str = "Usage:
  pv ocr-candidates <election|year> <municipality> [options]

Examples:
  cargo run -- ocr-candidates 2026-GR 0344
  cargo run -- ocr-candidates 2026 0344 --image Utrecht_100_Utrechtse_Schoolvereniging_GR26_lijst-01_GROENLINKS_PvdA_kolom-1 --force
  cargo run -- ocr-candidates 2026-GR 0344 --station 100 --force

Options:
  --input-dir <dir>         Candidate crop directory. Default: <election>/<municipality>/crops/b1-3.5/narrow.
  --out-dir <dir>           Markdown output directory. Default: <election>/<municipality>/results/candidates.
  --prompt <path>           Prompt markdown file. Default: prompts/ocr-candidates.md.
  --endpoint <url>          OpenAI-compatible local chat endpoint. Default: http://127.0.0.1:8089/v1/chat/completions.
                            Can also be set with PV_LLM_ENDPOINT.
  --model <model>           Model name sent to the endpoint. Default: local.
                            Can also be set with PV_LLM_MODEL.
  --image <stem-path>
                            Process only one candidate-column crop. Repeat to process several exact crops.
                            Stems are resolved under --input-dir with a .png suffix.
  --station <number>        Process all candidate-column crops for one polling station.
                            Repeat to OCR several stations.
  --force                   Re-run the LLM and overwrite existing Markdown outputs.
  --max-new-stations <n>    Process at most N stations with missing or invalid Markdown outputs.
                            Existing valid stations are skipped when choosing the batch.
  --max-tokens <n>          Maximum completion tokens. Default: 4096.
  --timeout-seconds <n>     Socket read/write timeout for each LLM request. Default: 300.

The ocr-candidates command is meant to run after
`pv crop --kind b1-3.5`. It writes one Markdown table per candidate-list column
with the candidate number and handwritten vote count.";

pub const OFFICIAL_CSVS_HELP_TEXT: &'static str = "Usage:
  pv official-csvs <election|year> <municipality> [options]

Examples:
  cargo run -- official-csvs 2026-GR 0344
  cargo run -- official-csvs 2026 0344 --force
  cargo run -- official-csvs 2026-GR 9999 --gsb-url <url> --csb-url <url>

Options:
  --out-dir <dir>           Output directory. Default: <election>/<municipality>/results/official.
  --gsb-url <url>           Gemeentelijk stembureau OSV4-3 candidate-count CSV URL.
  --csb-url <url>           Centraal stembureau / final tellingsbestand CSV URL.
  --force                   Overwrite existing CSV files.

For now, built-in URLs exist only for Utrecht (`2026-GR 0344`). Other
municipalities fail unless both URLs are provided manually. The command writes
`gsb-tellingsbestand.csv` and `csb-tellingsbestand.csv`.";

pub const COMPARE_RESULTS_HELP_TEXT: &'static str = "Usage:
  pv compare-results <election|year> <municipality> [options]

Examples:
  cargo run -- compare-results 2026-GR 0344
  cargo run -- compare-results 2026-GR 0344 --station 111

Options:
  --results-dir <dir>       Markdown result directory. Default: <election>/<municipality>/results.
  --corrections-dir <dir>   Correction OCR directory. Default: <election>/<municipality>/results/corrections.
  --candidates-dir <dir>    Candidate OCR directory. Default: <election>/<municipality>/results/candidates.
  --output <file>           Also write a Markdown report to this file.
  --station <number>        Compare and rewrite the mismatch report for one polling station.
                            Repeat to check several specific stations.
  --format <terminal|markdown>
                            Output format. Default: terminal.
  --debug                   Print progress logs to stderr while comparing and
                            writing mismatch reports.

The command prefers a first-count per-list CSV at
`<election>/<municipality>/results/official/first-count-tellingsbestand.csv`.
If that file is absent, it falls back to the station-level GSB CSV written by
`official-csvs` at
`<election>/<municipality>/results/official/gsb-tellingsbestand.csv`. The GSB
CSV is the OSV4-3 central/candidate count; for `_eerste_telling` Markdown files
the command reverses per-station corrections from
`<election>/<municipality>/results/corrections/` before comparing. Missing or
invalid correction OCR marks that row `incomplete`. Status values are `missing`,
`incomplete`, `correction inconsistent`, `internally inconsistent`,
`fully matches`, and `mismatch`. Full failure details and highlighted table crops are written under
`<election>/<municipality>/results/mismatches/`. Candidate OCR files under
`<election>/<municipality>/results/candidates/` are compared against the same
station-level official CSV when present. Missing rows include official stations
without Markdown and Markdown files whose station number is not present in the
official CSV.";

/// The help text of the tool.
pub fn help_text() -> (r: &'static str)
    ensures
        r@ == HELP_TEXT@,
{
    HELP_TEXT
}

/// The help text of the `doctor` command.
pub fn doctor_help_text() -> (r: &'static str)
    ensures
        r@ == DOCTOR_HELP_TEXT@,
{
    DOCTOR_HELP_TEXT
}

/// The help text of the `crop` command.
pub fn crop_help_text() -> (r: &'static str)
    ensures
        r@ == CROP_HELP_TEXT@,
{
    CROP_HELP_TEXT
}

/// The help text of the `ocr-votes` command.
pub fn ocr_votes_help_text() -> (r: &'static str)
    ensures
        r@ == OCR_VOTES_HELP_TEXT@,
{
    OCR_VOTES_HELP_TEXT
}

/// The help text of the `ocr-corrections` command.
pub fn ocr_corrections_help_text() -> (r: &'static str)
    ensures
        r@ == OCR_CORRECTIONS_HELP_TEXT@,
{
    OCR_CORRECTIONS_HELP_TEXT
}

/// The help text of the `ocr-candidates` command.
pub fn ocr_candidates_help_text() -> (r: &'static str)
    ensures
        r@ == OCR_CANDIDATES_HELP_TEXT@,
{
    OCR_CANDIDATES_HELP_TEXT
}

/// The help text of the `official-csvs` command.
pub fn official_csvs_help_text() -> (r: &'static str)
    ensures
        r@ == OFFICIAL_CSVS_HELP_TEXT@,
{
    OFFICIAL_CSVS_HELP_TEXT
}

/// The help text of the `compare-results` command.
pub fn compare_results_help_text() -> (r: &'static str)
    ensures
        r@ == COMPARE_RESULTS_HELP_TEXT@,
{
    COMPARE_RESULTS_HELP_TEXT
}

} // verus!
