//! The course of one download: bytes counted, progress reported.
//!
//! The caller receives the body of a response piece by piece and writes each
//! piece to disk. After each piece it tells the transfer how long the piece
//! was and gets the progress to report: one value for each piece. Progress
//! is a fraction of the size that the response announced, and it never goes
//! down. When the body has ended the transfer is finished. The last value
//! reported is then one: where the last piece did not bring the progress to
//! one, or there was no piece, finishing gives a closing value of one to
//! report.

use vstd::prelude::*;

verus! {

/// Why a download failed.
#[derive(Debug, Clone, Copy, PartialEq, Eq)]
pub enum AcquireError {
    /// The response does not say how long its body is.
    MissingLength,
    /// More bytes arrived than a 64-bit count holds.
    CountOverflow,
}

/// Progress as a fraction: `numerator` parts of `denominator`.
#[derive(Debug, Clone, Copy, PartialEq, Eq, Structural)]
pub struct Progress {
    pub numerator: u64,
    pub denominator: u64,
}

impl Progress {
    /// Whether this is a fraction between zero and one.
    pub open spec fn well_formed(self) -> bool {
        0 < self.denominator && self.numerator <= self.denominator
    }

    /// Whether the fraction is one.
    pub open spec fn is_complete(self) -> bool {
        self.numerator == self.denominator
    }

    /// Whether this fraction is at most `other`.
    pub open spec fn at_most(self, other: Progress) -> bool {
        self.numerator * other.denominator <= other.numerator * self.denominator
    }
}

/// The denominator of the progress of a download of `total` bytes.
pub open spec fn parts(total: u64) -> u64 {
    if total == 0 {
        1
    } else {
        total
    }
}

/// The progress to report when `downloaded` bytes of `total` have arrived:
/// the bytes that arrived as a fraction of `total`, and one once all of
/// `total` have arrived.
pub open spec fn progress_after(total: u64, downloaded: nat) -> Progress {
    Progress {
        numerator: if downloaded >= total {
            parts(total)
        } else {
            downloaded as u64
        },
        denominator: parts(total),
    }
}

/// The progress to report when the download is finished: one.
pub open spec fn progress_done(total: u64) -> Progress {
    Progress { numerator: parts(total), denominator: parts(total) }
}

/// The number of bytes in the first `n` of the pieces `chunks`.
pub open spec fn received(chunks: Seq<usize>, n: int) -> nat
    decreases n,
{
    if n <= 0 {
        0
    } else {
        received(chunks, n - 1) + chunks[n - 1] as nat
    }
}

/// The progress values reported after the pieces `chunks` of a download of
/// `total` bytes: one for each piece.
pub open spec fn piece_reports(total: u64, chunks: Seq<usize>) -> Seq<Progress> {
    Seq::new(chunks.len(), |i: int| progress_after(total, received(chunks, i + 1)))
}

/// Whether the pieces `chunks` bring the progress of a download of `total`
/// bytes to one: there is a piece, and with the last all of `total` have
/// arrived.
pub open spec fn pieces_complete(total: u64, chunks: Seq<usize>) -> bool {
    chunks.len() > 0 && received(chunks, chunks.len() as int) >= total
}

/// The progress values reported in the course of a download of `total`
/// bytes that arrives in the pieces `chunks`: one for each piece, and a
/// closing value of one only where the pieces do not bring the progress to
/// one.
pub open spec fn reports(total: u64, chunks: Seq<usize>) -> Seq<Progress> {
    if pieces_complete(total, chunks) {
        piece_reports(total, chunks)
    } else {
        piece_reports(total, chunks).push(progress_done(total))
    }
}

/// A download under way: the size that the response announced, the bytes
/// that have arrived, and whether a value has been reported yet.
#[derive(Debug)]
pub struct Transfer {
    pub total: u64,
    pub downloaded: u64,
    pub reported: bool,
}

/// The closing value to report when a download ends in the state
/// `transfer`: one, unless the last value reported was one already.
pub open spec fn closing(transfer: Transfer) -> Option<Progress> {
    if transfer.reported && transfer.downloaded >= transfer.total {
        None
    } else {
        Some(progress_done(transfer.total))
    }
}

/// The first `n` pieces hold no more bytes than the first `m`, for `n` up to
/// `m`.
pub proof fn lemma_received_grows(chunks: Seq<usize>, n: int, m: int)
    requires
        0 <= n <= m,
    ensures
        received(chunks, n) <= received(chunks, m),
    decreases m - n,
{
    if n < m {
        lemma_received_grows(chunks, n, m - 1);
    }
}

/// There is one progress value for each piece, and one more only where the
/// pieces do not bring the progress to one.
pub proof fn lemma_progress_count(total: u64, chunks: Seq<usize>)
    ensures
        pieces_complete(total, chunks) ==> reports(total, chunks).len() == chunks.len(),
        !pieces_complete(total, chunks) ==> reports(total, chunks).len() == chunks.len() + 1,
        forall|i: int|
            0 <= i < chunks.len() ==> #[trigger] reports(total, chunks)[i] == progress_after(
                total,
                received(chunks, i + 1),
            ),
{
}

/// The progress values of a download never go down, each is a fraction
/// between zero and one, and the last is one.
pub proof fn lemma_progress_monotone(total: u64, chunks: Seq<usize>, i: int, j: int)
    requires
        0 <= i <= j < reports(total, chunks).len(),
    ensures
        reports(total, chunks)[i].well_formed(),
        reports(total, chunks)[i].at_most(reports(total, chunks)[j]),
        reports(total, chunks).last().is_complete(),
{
    let r = reports(total, chunks);
    let d = parts(total) as int;
    if i < chunks.len() && j < chunks.len() {
        lemma_received_grows(chunks, i + 1, j + 1);
    }
    assert(r[i].denominator == d && r[j].denominator == d);
    assert(r[i].numerator <= r[j].numerator);
    assert(r[i].numerator * d <= r[j].numerator * d) by (nonlinear_arith)
        requires
            r[i].numerator <= r[j].numerator,
            d > 0,
    ;
}

/// Begins a download whose response announces `content_length` bytes.
/// A response that announces no length cannot be followed.
pub fn write_response(content_length: Option<u64>) -> (r: Result<Transfer, AcquireError>)
    ensures
        match content_length {
            Some(total) => r == Ok::<Transfer, AcquireError>(
                Transfer { total, downloaded: 0, reported: false },
            ),
            None => r == Err::<Transfer, AcquireError>(AcquireError::MissingLength),
        },
{
    match content_length {
        Some(total) => Ok(Transfer { total, downloaded: 0, reported: false }),
        None => Err(AcquireError::MissingLength),
    }
}

impl Transfer {
    /// The progress at this point of the download.
    pub fn progress(&self) -> (r: Progress)
        ensures
            r == progress_after(self.total, self.downloaded as nat),
            r.well_formed(),
    {
        let denominator: u64 = if self.total == 0 {
            1
        } else {
            self.total
        };
        Progress {
            numerator: if self.downloaded >= self.total {
                denominator
            } else {
                self.downloaded
            },
            denominator,
        }
    }

    /// Counts a piece of `len` bytes that was written, and gives the progress
    /// to report for it. The count fails where it no longer fits, and the
    /// transfer is then left as it was.
    pub fn chunk(&mut self, len: usize) -> (r: Result<Progress, AcquireError>)
        ensures
            match r {
                Ok(p) => {
                    &&& old(self).downloaded + len <= u64::MAX
                    &&& *final(self) == (Transfer {
                        total: old(self).total,
                        downloaded: (old(self).downloaded + len) as u64,
                        reported: true,
                    })
                    &&& p == progress_after(old(self).total, final(self).downloaded as nat)
                    &&& p.well_formed()
                    &&& progress_after(old(self).total, old(self).downloaded as nat).at_most(p)
                },
                Err(e) => {
                    &&& old(self).downloaded + len > u64::MAX
                    &&& e == AcquireError::CountOverflow
                    &&& *final(self) == *old(self)
                },
            },
    {
        let before = self.progress();
        if len as u64 > u64::MAX - self.downloaded {
            return Err(AcquireError::CountOverflow);
        }
        self.downloaded = self.downloaded + len as u64;
        self.reported = true;
        let p = self.progress();
        assert(before.numerator * p.denominator <= p.numerator * before.denominator)
            by (nonlinear_arith)
            requires
                before.numerator <= p.numerator,
                before.denominator == p.denominator,
        ;
        Ok(p)
    }

    /// Ends the download. Gives the closing value to report, which is one,
    /// and none where the last value reported was one already.
    pub fn finish(self) -> (r: Option<Progress>)
        ensures
            r == closing(self),
            r matches Some(p) ==> p.is_complete() && p.well_formed() && progress_after(
                self.total,
                self.downloaded as nat,
            ).at_most(p),
            r is None ==> progress_after(self.total, self.downloaded as nat).is_complete(),
    {
        if self.reported && self.downloaded >= self.total {
            return None;
        }
        let before = self.progress();
        let d: u64 = if self.total == 0 {
            1
        } else {
            self.total
        };
        assert(before.numerator * d <= d * before.denominator) by (nonlinear_arith)
            requires
                before.numerator <= d,
                before.denominator == d,
        ;
        Some(Progress { numerator: d, denominator: d })
    }
}

/// The progress values to report for a download that announces
/// `content_length` bytes and arrives whole in pieces of the lengths
/// `chunks`: one value for each piece, and a closing value of one only
/// where the last of them is not one.
pub fn write_response_with_sender(content_length: Option<u64>, chunks: &Vec<usize>) -> (r: Result<
    Vec<Progress>,
    AcquireError,
>)
    ensures
        match r {
            Ok(v) => content_length matches Some(total) && received(chunks@, chunks@.len() as int)
                <= u64::MAX && v@ == reports(total, chunks@),
            Err(AcquireError::MissingLength) => content_length is None,
            Err(AcquireError::CountOverflow) => content_length is Some && received(
                chunks@,
                chunks@.len() as int,
            ) > u64::MAX,
        },
{
    let mut transfer = match write_response(content_length) {
        Ok(t) => t,
        Err(e) => {
            return Err(e);
        },
    };
    let ghost total = transfer.total;
    let mut out: Vec<Progress> = Vec::new();
    let mut i: usize = 0;
    while i < chunks.len()
        invariant
            i <= chunks.len(),
            transfer.total == total,
            content_length == Some(total),
            transfer.downloaded == received(chunks@, i as int),
            transfer.reported == (i > 0),
            out.len() == i,
            forall|k: int| 0 <= k < i ==> out@[k] == piece_reports(total, chunks@)[k],
        decreases chunks.len() - i,
    {
        match transfer.chunk(chunks[i]) {
            Ok(p) => {
                out.push(p);
            },
            Err(e) => {
                proof {
                    lemma_received_grows(chunks@, i + 1, chunks@.len() as int);
                }
                return Err(e);
            },
        }
        i += 1;
    }
    assert(out@ =~= piece_reports(total, chunks@));
    match transfer.finish() {
        Some(p) => {
            out.push(p);
        },
        None => {},
    }
    Ok(out)
}

} // verus!
